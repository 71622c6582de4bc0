use vstd::prelude::*;

use crate::account::{
    apply_fits, spec_apply, Account, AccountError, AccountView,
};
use crate::render::{csv_str, row_str, row_to_string, rows_str};
use crate::transaction::{Transaction, TransactionError, Transactions};
use crate::types::ClientId;
use vstd::string::StringExecFns;

verus! {

/// No two accounts of a ledger book belong to the same client.
pub open spec fn unique_clients(book: Seq<AccountView>) -> bool {
    forall|i: int, j: int|
        #![trigger book[i].client, book[j].client]
        0 <= i < j < book.len() ==> book[i].client != book[j].client
}

pub open spec fn book_has_client(book: Seq<AccountView>, c: ClientId) -> bool {
    exists|i: int| 0 <= i < book.len() && book[i].client == c
}

pub open spec fn book_index_of(book: Seq<AccountView>, c: ClientId) -> int {
    choose|i: int| 0 <= i < book.len() && book[i].client == c
}

/// Route an event to its owning account, creating the account the first
/// time the client is seen. Yields the (possibly grown) book and the
/// index of the owning account.
pub open spec fn step_account(book: Seq<AccountView>, t: Transaction) -> (Seq<AccountView>, int) {
    if book_has_client(book, t.client) {
        (book, book_index_of(book, t.client))
    } else {
        (book.push(AccountView::fresh(t.client)), book.len() as int)
    }
}

/// One fold step of the ledger book: route, then apply. The created
/// account persists even when the event itself then fails.
pub open spec fn spec_step(book: Seq<AccountView>, t: Transaction) -> (Seq<AccountView>, Result<
    (),
    AccountError,
>) {
    let (book1, i) = step_account(book, t);
    let (a2, r) = spec_apply(book1[i], t);
    match r {
        Ok(()) => (book1.update(i, a2), Ok(())),
        Err(e) => (book1, Err(e)),
    }
}

/// A step that no caller may take: it would break an internal invariant
/// (a second funding event with an already-retained id) or leave the
/// fixed-width balance range. These are programming faults or machine
/// limits, not business errors, and are excluded by precondition.
pub open spec fn step_fault(book: Seq<AccountView>, t: Transaction) -> bool {
    let (book1, i) = step_account(book, t);
    let a = book1[i];
    ||| (t.type_.is_funding() && a.txs.contains_key(t.tx))
    ||| !apply_fits(a, t)
}

/// The outcome of folding a whole event sequence.
#[verifier::ext_equal]
pub enum BuildOutcome {
    /// Some step was a programming fault or left the balance range.
    Fault,
    /// The fold stopped early: an ingestion failure, or a business error
    /// under the strict policy.
    Halt(AccountError),
    /// Every event was consumed; the final book, in first-seen order.
    Done(Seq<AccountView>),
}

/// The ledger-book fold. Events are consumed strictly in order; an
/// ingestion failure always halts the run; a business error halts it only
/// under `strict`, and is otherwise skipped with no effect beyond the
/// lazily created account.
pub open spec fn spec_build(
    book: Seq<AccountView>,
    events: Seq<Result<Transaction, TransactionError>>,
    strict: bool,
) -> BuildOutcome
    decreases events.len(),
{
    if events.len() == 0 {
        BuildOutcome::Done(book)
    } else {
        match events[0] {
            Err(e) => BuildOutcome::Halt(AccountError::Transaction(e)),
            Ok(t) => {
                if step_fault(book, t) {
                    BuildOutcome::Fault
                } else {
                    let (book2, r) = spec_step(book, t);
                    match r {
                        Ok(()) => spec_build(book2, events.drop_first(), strict),
                        Err(e) => {
                            if strict {
                                BuildOutcome::Halt(e)
                            } else {
                                spec_build(book2, events.drop_first(), strict)
                            }
                        },
                    }
                }
            },
        }
    }
}

/// A batch of already-parsed events, as the fold input they stand for.
pub open spec fn all_ok(s: Seq<Transaction>) -> Seq<Result<Transaction, TransactionError>> {
    s.map_values(|t: Transaction| Result::<Transaction, TransactionError>::Ok(t))
}

/// No two funding events of the stream share a client and an id. The
/// input format owes more (ids unique across the whole stream), so this
/// holds of every well-formed input.
pub open spec fn distinct_funding_ids(events: Seq<Result<Transaction, TransactionError>>) -> bool {
    forall|i: int, j: int|
        #![trigger events[i], events[j]]
        0 <= i < j < events.len() ==> match (events[i], events[j]) {
            (Ok(ti), Ok(tj)) => !(ti.type_.is_funding() && tj.type_.is_funding() && ti.client
                == tj.client && ti.tx == tj.tx),
            _ => true,
        }
}

/// No funding event of the stream reuses an identity the book already
/// retains.
pub open spec fn no_retained_clash(
    book: Seq<AccountView>,
    events: Seq<Result<Transaction, TransactionError>>,
) -> bool {
    forall|i: int, k: int|
        #![trigger events[i], book[k]]
        0 <= i < events.len() && 0 <= k < book.len() ==> match events[i] {
            Ok(t) => !(t.type_.is_funding() && book[k].client == t.client
                && book[k].txs.contains_key(t.tx)),
            Err(_) => true,
        }
}

/// All three balances within `b` of zero.
pub open spec fn balances_bounded(a: AccountView, b: int) -> bool {
    &&& -b <= a.available <= b
    &&& -b <= a.held <= b
    &&& -b <= a.total <= b
}

proof fn lemma_client_index(book: Seq<AccountView>, i: int)
    requires
        unique_clients(book),
        0 <= i < book.len(),
    ensures
        book_has_client(book, book[i].client),
        book_index_of(book, book[i].client) == i,
{
    assert(0 <= i < book.len() && book[i].client == book[i].client);
    let k = choose|k: int| 0 <= k < book.len() && book[k].client == book[i].client;
    assert(k == i);
}

/// The registry of accounts, in the order their clients were first seen.
#[derive(Debug)]
pub struct Accounts {
    accounts: Vec<Account>,
}

impl View for Accounts {
    type V = Seq<AccountView>;

    closed spec fn view(&self) -> Seq<AccountView> {
        self.accounts@.map_values(|a: Account| a@)
    }
}

impl Accounts {
    /// Every account is well formed and no client owns two of them.
    pub closed spec fn wf(self) -> bool {
        &&& forall|i: int|
            0 <= i < self.accounts@.len() ==> (#[trigger] self.accounts@[i]).wf()
        &&& unique_clients(self@)
    }

    pub fn new() -> (r: Accounts)
        ensures
            r.wf(),
            r@ == Seq::<AccountView>::empty(),
    {
        let r = Accounts { accounts: Vec::new() };
        proof {
            assert(r@ =~= Seq::<AccountView>::empty());
        }
        r
    }

    pub fn len(&self) -> (r: usize)
        ensures
            r == self@.len(),
    {
        self.accounts.len()
    }

    /// The account of this client, if one was ever created.
    pub fn get(&self, client: ClientId) -> (r: Option<&Account>)
        requires
            self.wf(),
        ensures
            match r {
                Some(a) => {
                    &&& book_has_client(self@, client)
                    &&& a.wf()
                    &&& a@ == self@[book_index_of(self@, client)]
                },
                None => !book_has_client(self@, client),
            },
    {
        let idx = self.find_account_index(client);
        match idx {
            Some(i) => {
                proof {
                    lemma_client_index(self@, i as int);
                }
                Some(&self.accounts[i])
            },
            None => None,
        }
    }

    fn find_account_index(&self, client: ClientId) -> (r: Option<usize>)
        ensures
            match r {
                Some(i) => 0 <= i < self@.len() && self@[i as int].client == client,
                None => !book_has_client(self@, client),
            },
    {
        let n = self.accounts.len();
        let mut j: usize = 0;
        while j < n
            invariant
                0 <= j <= n,
                n == self.accounts@.len(),
                self@.len() == self.accounts@.len(),
                forall|k: int| 0 <= k < self@.len() ==> self@[k] == self.accounts@[k]@,
                forall|k: int| 0 <= k < j ==> (#[trigger] self@[k].client) != client,
            decreases n - j,
        {
            if self.accounts[j].client() == client {
                return Some(j);
            }
            j = j + 1;
        }
        None
    }

    /// Route one event and apply it, mirroring one `spec_step`.
    fn apply_one(&mut self, t: Transaction) -> (r: Result<(), AccountError>)
        requires
            old(self).wf(),
            !step_fault(old(self)@, t),
        ensures
            final(self).wf(),
            final(self)@ == spec_step(old(self)@, t).0,
            r == spec_step(old(self)@, t).1,
    {
        let ghost pre = self@;
        let idx_opt = self.find_account_index(t.client);
        let i: usize = match idx_opt {
            Some(i) => {
                proof {
                    lemma_client_index(pre, i as int);
                }
                i
            },
            None => {
                let n = self.accounts.len();
                self.accounts.push(Account::new(t.client));
                proof {
                    assert(self@ =~= pre.push(AccountView::fresh(t.client)));
                    assert(self.wf()) by {
                        assert forall|k: int, l: int|
                            #![trigger self@[k].client, self@[l].client]
                            0 <= k < l < self@.len() implies self@[k].client != self@[l].client by {
                            if l < pre.len() {
                            } else {
                                assert(self@[l].client == t.client);
                                assert(!book_has_client(pre, t.client));
                            }
                        }
                    }
                }
                n
            },
        };
        let ghost book1 = step_account(pre, t).0;
        let ghost accounts_before = self.accounts@;
        proof {
            assert(book1 == self@);
            assert(step_account(pre, t).1 == i as int);
            assert(book1[i as int] == self.accounts@[i as int]@);
            assert(self.accounts@[i as int].wf());
            assert(book1[i as int].client == t.client);
            assert(t.type_.is_funding() ==> !book1[i as int].txs.contains_key(t.tx));
            assert(apply_fits(book1[i as int], t));
        }
        let r = self.accounts[i].apply_transaction(t);
        proof {
            let acc_post = self.accounts@[i as int];
            assert(self.accounts@ =~= accounts_before.update(i as int, acc_post));
            assert(acc_post@ == spec_apply(book1[i as int], t).0);
            assert(r == spec_apply(book1[i as int], t).1);
            assert(spec_apply(book1[i as int], t).0.client == book1[i as int].client);
            match r {
                Ok(()) => {
                    assert(self@ =~= book1.update(i as int, acc_post@));
                },
                Err(_) => {
                    assert(acc_post@ == book1[i as int]);
                    assert(self@ =~= book1);
                },
            }
            assert(self.wf()) by {
                assert(forall|k: int|
                    0 <= k < self.accounts@.len() ==> (#[trigger] self.accounts@[k]).wf());
                assert forall|k: int, l: int|
                    #![trigger self@[k].client, self@[l].client]
                    0 <= k < l < self@.len() implies self@[k].client != self@[l].client by {
                    assert(self@[k].client == book1[k].client);
                    assert(self@[l].client == book1[l].client);
                }
            }
        }
        r
    }

    /// Fold a sequence of parse results into a ledger book. An ingestion
    /// failure always aborts; a business error aborts exactly under
    /// `strict` and is skipped otherwise.
    pub fn from_transaction_iter(
        events: Vec<Result<Transaction, TransactionError>>,
        strict: bool,
    ) -> (r: Result<Accounts, AccountError>)
        requires
            !(spec_build(Seq::<AccountView>::empty(), events@, strict) is Fault),
        ensures
            match r {
                Ok(book) => {
                    &&& book.wf()
                    &&& spec_build(Seq::<AccountView>::empty(), events@, strict)
                        == BuildOutcome::Done(book@)
                },
                Err(e) => spec_build(Seq::<AccountView>::empty(), events@, strict)
                    == BuildOutcome::Halt(e),
            },
    {
        let mut accounts = Accounts::new();
        proof {
            assert(events@.skip(0) =~= events@);
        }
        let n = events.len();
        let mut k: usize = 0;
        while k < n
            invariant
                0 <= k <= n,
                n == events@.len(),
                accounts.wf(),
                !(spec_build(Seq::<AccountView>::empty(), events@, strict) is Fault),
                spec_build(Seq::<AccountView>::empty(), events@, strict) == spec_build(
                    accounts@,
                    events@.skip(k as int),
                    strict,
                ),
            decreases n - k,
        {
            let ghost rest = events@.skip(k as int);
            proof {
                assert(rest.len() == n - k);
                assert(rest[0] == events@[k as int]);
                assert(rest.drop_first() =~= events@.skip(k as int + 1));
            }
            let ev = events[k];
            match ev {
                Err(e) => {
                    return Err(AccountError::Transaction(e));
                },
                Ok(t) => {
                    let ghost book_pre = accounts@;
                    proof {
                        if step_fault(book_pre, t) {
                            assert(spec_build(book_pre, rest, strict) is Fault);
                        }
                    }
                    let r = accounts.apply_one(t);
                    proof {
                        assert(accounts@ == spec_step(book_pre, t).0);
                        assert(r == spec_step(book_pre, t).1);
                    }
                    match r {
                        Ok(()) => {},
                        Err(e) => {
                            if strict {
                                proof {
                                    assert(spec_build(book_pre, rest, strict)
                                        == BuildOutcome::Halt(e));
                                }
                                return Err(e);
                            }
                        },
                    }
                },
            }
            k = k + 1;
        }
        proof {
            assert(events@.skip(n as int) =~= Seq::<Result<
                Transaction,
                TransactionError,
            >>::empty());
        }
        Ok(accounts)
    }

    /// Render the whole report: the header line, then one row per
    /// account, in the order the clients were first seen.
    pub fn to_csv(&self) -> (r: String)
        ensures
            r@ == csv_str(self@),
    {
        let mut s = "client,available,held,total,locked\n".to_owned();
        proof {
            assert(self@.take(0) =~= Seq::<AccountView>::empty());
            assert(s@ =~= csv_str(self@.take(0)));
        }
        let n = self.accounts.len();
        let mut j: usize = 0;
        while j < n
            invariant
                0 <= j <= n,
                n == self.accounts@.len(),
                self@.len() == n,
                forall|k: int| 0 <= k < n ==> self@[k] == (#[trigger] self.accounts@[k])@,
                s@ == csv_str(self@.take(j as int)),
            decreases n - j,
        {
            let row = row_to_string(&self.accounts[j]);
            s.append(row.as_str());
            proof {
                let taken = self@.take(j as int + 1);
                assert(taken.drop_last() =~= self@.take(j as int));
                assert(taken.last() == self@[j as int]);
                assert(rows_str(taken) == rows_str(self@.take(j as int)) + row_str(
                    self@[j as int],
                ));
                assert(s@ =~= csv_str(taken));
            }
            j = j + 1;
        }
        proof {
            assert(self@.take(n as int) =~= self@);
        }
        s
    }

    /// Fold a batch of already-parsed events.
    pub fn from_transactions(transactions: Transactions, strict: bool) -> (r: Result<
        Accounts,
        AccountError,
    >)
        requires
            !(spec_build(Seq::<AccountView>::empty(), all_ok(transactions.0@), strict) is Fault),
        ensures
            match r {
                Ok(book) => {
                    &&& book.wf()
                    &&& spec_build(Seq::<AccountView>::empty(), all_ok(transactions.0@), strict)
                        == BuildOutcome::Done(book@)
                },
                Err(e) => spec_build(Seq::<AccountView>::empty(), all_ok(transactions.0@), strict)
                    == BuildOutcome::Halt(e),
            },
    {
        let mut events: Vec<Result<Transaction, TransactionError>> = Vec::new();
        let n = transactions.0.len();
        let mut k: usize = 0;
        while k < n
            invariant
                0 <= k <= n,
                n == transactions.0@.len(),
                events@.len() == k,
                forall|i: int|
                    0 <= i < k ==> events@[i] == Result::<Transaction, TransactionError>::Ok(
                        transactions.0@[i],
                    ),
            decreases n - k,
        {
            events.push(Ok(transactions.0[k]));
            k = k + 1;
        }
        proof {
            assert(events@ =~= all_ok(transactions.0@));
        }
        Self::from_transaction_iter(events, strict)
    }
}

} // verus!
