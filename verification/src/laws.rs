use vstd::prelude::*;

use crate::account::{apply_fits, spec_apply, AccountError, AccountView};
use crate::book::{
    balances_bounded, book_has_client, book_index_of, distinct_funding_ids, no_retained_clash,
    spec_build, spec_step, step_account, step_fault,
};
use crate::render::{csv_str, frac_digits, money_mag, money_str};
use crate::transaction::{Transaction, TransactionError, TransactionType};
use crate::types::TransactionId;

verus! {

/// Applying any event to a well-formed account leaves it well formed; in
/// particular, after every successfully applied event the total balance
/// still equals available plus held.
pub proof fn lemma_apply_preserves_invariant(a: AccountView, t: Transaction)
    requires
        a.inv(),
        t.client == a.client,
    ensures
        spec_apply(a, t).0.inv(),
        spec_apply(a, t).0.total == spec_apply(a, t).0.available + spec_apply(a, t).0.held,
{
    let post = spec_apply(a, t).0;
    assert forall|id: TransactionId| post.txs.contains_key(id) implies {
        &&& (#[trigger] post.txs[id]).type_.is_funding()
        &&& post.txs[id].client == post.client
        &&& post.txs[id].tx == id
    } by {
        if a.txs.contains_key(id) {
            assert(a.txs[id].type_.is_funding());
        }
    }
}

/// An event that fails mutates nothing: on every error the account comes
/// back exactly as it was (validate-then-mutate, never partial).
pub proof fn lemma_error_no_mutation(a: AccountView, t: Transaction)
    ensures
        spec_apply(a, t).1 is Err ==> spec_apply(a, t).0 == a,
{
}

/// Resolving a retained transaction that is not under dispute fails with
/// the resolve-undisputed error, for every such transaction id.
pub proof fn lemma_resolve_undisputed(a: AccountView, t: Transaction)
    requires
        t.type_ == TransactionType::Resolve,
        a.txs.contains_key(t.tx),
        !a.txs[t.tx].disputed,
    ensures
        spec_apply(a, t) == (
            a,
            Err::<(), AccountError>(AccountError::ResolveUndisputed(a.client, t.tx)),
        ),
{
}

/// Disputing a retained, undisputed deposit and then resolving that same
/// dispute restores the account exactly: both steps succeed, and the
/// balances, the lock flag and the retained transactions all come back.
pub proof fn lemma_dispute_resolve_roundtrip(a: AccountView, d: Transaction, r: Transaction)
    requires
        d.type_ == TransactionType::Dispute,
        r.type_ == TransactionType::Resolve,
        r.tx == d.tx,
        a.txs.contains_key(d.tx),
        a.txs[d.tx].type_ == TransactionType::Deposit,
        !a.txs[d.tx].disputed,
    ensures
        spec_apply(a, d).1 == Ok::<(), AccountError>(()),
        spec_apply(spec_apply(a, d).0, r).1 == Ok::<(), AccountError>(()),
        spec_apply(spec_apply(a, d).0, r).0 == a,
{
    let a1 = spec_apply(a, d).0;
    let a2 = spec_apply(a1, r).0;
    let orig = a.txs[d.tx];
    let marked = Transaction { disputed: true, ..orig };
    let cleared = Transaction { disputed: false, ..marked };
    assert(cleared == orig);
    assert(a2.txs =~= a.txs);
    assert(a2 =~= a);
}

/// Under the lenient policy a business-rule failure is skipped: the fold
/// goes on from the same book (keeping only the lazily created account),
/// exactly as if the offending event were not in the stream.
pub proof fn lemma_lenient_skip(
    book: Seq<AccountView>,
    t: Transaction,
    rest: Seq<Result<Transaction, TransactionError>>,
)
    requires
        !step_fault(book, t),
        spec_step(book, t).1 is Err,
    ensures
        spec_build(book, seq![Ok(t)] + rest, false) == spec_build(spec_step(book, t).0, rest, false),
{
    let events = seq![Result::<Transaction, TransactionError>::Ok(t)] + rest;
    assert(events.len() == 1 + rest.len());
    assert(events[0] == Result::<Transaction, TransactionError>::Ok(t));
    assert(events.drop_first() =~= rest);
}

/// Every error the account state machine itself returns is a business
/// error: an ingestion failure never originates in an account.
pub proof fn lemma_apply_error_is_business(a: AccountView, t: Transaction)
    ensures
        spec_apply(a, t).1 matches Err(e) ==> e.spec_is_business(),
{
}

/// The lock is monotonic: once an account is frozen by a chargeback, no
/// later event unfreezes it.
pub proof fn lemma_lock_is_monotonic(a: AccountView, t: Transaction)
    ensures
        a.locked ==> spec_apply(a, t).0.locked,
{
}

/// The fold can never hit its fault precondition on a well-formed input:
/// starting from a book whose balances are within `b` of zero, a stream
/// whose funding identities are pairwise distinct and clash with nothing
/// the book retains — the input format owes both — keeps every step in
/// the balance range, as long as the stream is short enough that even
/// maximal amounts cannot overflow it.
pub proof fn lemma_build_never_faults(
    book: Seq<AccountView>,
    events: Seq<Result<Transaction, TransactionError>>,
    strict: bool,
    b: int,
)
    requires
        0 <= b,
        forall|k: int| 0 <= k < book.len() ==> balances_bounded(#[trigger] book[k], b),
        b + events.len() * 0x1_0000_0000_0000_0000 <= i128::MAX,
        distinct_funding_ids(events),
        no_retained_clash(book, events),
    ensures
        !(spec_build(book, events, strict) is Fault),
    decreases events.len(),
{
    if events.len() == 0 {
    } else {
        match events[0] {
            Err(_) => {},
            Ok(t) => {
                let (book1, i) = step_account(book, t);
                let a = book1[i];
                if book_has_client(book, t.client) {
                    let w = book_index_of(book, t.client);
                    assert(0 <= w < book.len() && book[w].client == t.client);
                } else {
                    assert(AccountView::fresh(t.client).txs =~= Map::<TransactionId, Transaction>::empty());
                }
                assert(0 <= i < book1.len());
                assert(a.client == t.client);
                assert(balances_bounded(a, b));
                if t.type_.is_funding() {
                    assert(!a.txs.contains_key(t.tx));
                }
                assert((events.len() - 1) * 0x1_0000_0000_0000_0000 >= 0) by (nonlinear_arith)
                    requires
                        events.len() >= 1,
                ;
                assert(b + 0x1_0000_0000_0000_0000 <= i128::MAX);
                assert(apply_fits(a, t));
                assert(!step_fault(book, t));
                let (book2, r) = spec_step(book, t);
                let rest = events.drop_first();
                let b2 = b + 0x1_0000_0000_0000_0000;
                let a2 = spec_apply(a, t).0;
                assert(balances_bounded(a2, b2));
                assert forall|k: int|
                    0 <= k < book2.len() implies balances_bounded(#[trigger] book2[k], b2) by {
                    if k != i {
                        assert(book2[k] == book1[k]);
                        if k < book.len() {
                            assert(book1[k] == book[k]);
                        }
                    }
                }
                assert(rest.len() == events.len() - 1);
                assert((b + 0x1_0000_0000_0000_0000) + (events.len() - 1)
                    * 0x1_0000_0000_0000_0000 == b + events.len() * 0x1_0000_0000_0000_0000)
                    by (nonlinear_arith);
                assert(b2 + rest.len() * 0x1_0000_0000_0000_0000 <= i128::MAX);
                assert(distinct_funding_ids(rest)) by {
                    assert forall|i1: int, j1: int|
                        #![trigger rest[i1], rest[j1]]
                        0 <= i1 < j1 < rest.len() implies match (rest[i1], rest[j1]) {
                        (Ok(ti), Ok(tj)) => !(ti.type_.is_funding() && tj.type_.is_funding()
                            && ti.client == tj.client && ti.tx == tj.tx),
                        _ => true,
                    } by {
                        assert(rest[i1] == events[i1 + 1]);
                        assert(rest[j1] == events[j1 + 1]);
                    }
                }
                assert(no_retained_clash(book2, rest)) by {
                    assert forall|i1: int, k: int|
                        #![trigger rest[i1], book2[k]]
                        0 <= i1 < rest.len() && 0 <= k < book2.len() implies match rest[i1] {
                        Ok(t1) => !(t1.type_.is_funding() && book2[k].client == t1.client
                            && book2[k].txs.contains_key(t1.tx)),
                        Err(_) => true,
                    } by {
                        assert(rest[i1] == events[i1 + 1]);
                        if k < book.len() {
                            assert(book1[k] == book[k]);
                        }
                        assert(book2[k].client == book1[k].client);
                        assert(book2[k].txs.dom() <= book1[k].txs.dom().insert(t.tx));
                        match rest[i1] {
                            Ok(t1) => {
                                if t1.type_.is_funding() && book2[k].client == t1.client {
                                    if t.type_.is_funding() && t1.client == t.client {
                                        assert(t1.tx != t.tx);
                                    }
                                    if !t.type_.is_funding() {
                                        assert(book2[k].txs.dom() <= book1[k].txs.dom());
                                    }
                                }
                            },
                            Err(_) => {},
                        }
                    }
                }
                lemma_build_never_faults(book2, rest, strict, b2);
            },
        }
    }
}

/// The fold never faults when started from the empty book: any stream of
/// parse results with pairwise-distinct funding identities can be folded,
/// as long as it is short enough that even maximal amounts cannot leave
/// the balance range.
pub proof fn lemma_fresh_build_never_faults(
    events: Seq<Result<Transaction, TransactionError>>,
    strict: bool,
)
    requires
        events.len() * 0x1_0000_0000_0000_0000 <= i128::MAX,
        distinct_funding_ids(events),
    ensures
        !(spec_build(Seq::<AccountView>::empty(), events, strict) is Fault),
{
    lemma_build_never_faults(Seq::<AccountView>::empty(), events, strict, 0);
}

/// Rendering is a pure function of the final ledger book: rendering the
/// same book twice yields byte-identical output.
pub proof fn lemma_report_idempotent(book: Seq<AccountView>, r1: Seq<char>, r2: Seq<char>)
    requires
        r1 == csv_str(book),
        r2 == csv_str(book),
    ensures
        r1 == r2,
{
}

/// A rendered balance carries at least one and at most four fractional
/// digits, whatever the value.
pub proof fn lemma_fraction_digit_bounds(f: nat)
    ensures
        1 <= frac_digits(f).len() <= 4,
{
}

/// The report truncates balances instead of rounding them: two balances
/// with the same sign that agree once truncated to four fractional digits
/// render identically, whatever their further digits.
pub proof fn lemma_render_truncates(v: int, w: int)
    requires
        (v < 0) == (w < 0),
        money_mag(v) / 10000 == money_mag(w) / 10000,
    ensures
        money_str(v) == money_str(w),
{
}

} // verus!
