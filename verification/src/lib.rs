//! A verified transaction-ledger core: per-account balances folded from an
//! ordered stream of deposits, withdrawals and the dispute lifecycle
//! (dispute, resolve, chargeback), plus the fixed-point rendering of the
//! final report. Amounts are fixed-point integers (`AMOUNT_SCALE` raw
//! units to the whole); ingestion and output plumbing live outside this
//! crate and exchange plain values with it.

mod account;
mod book;
mod laws;
mod render;
mod transaction;
mod types;

pub use crate::account::{
    apply_fits, lemma_wf_implies_inv, spec_apply, tx_map, unique_tx_ids, Account, AccountError,
    AccountView,
};
pub use crate::book::{
    all_ok, balances_bounded, book_has_client, book_index_of, distinct_funding_ids,
    no_retained_clash, spec_build, spec_step, step_account, step_fault, unique_clients, Accounts,
    BuildOutcome,
};
pub use crate::laws::{
    lemma_apply_error_is_business, lemma_apply_preserves_invariant, lemma_build_never_faults,
    lemma_dispute_resolve_roundtrip, lemma_error_no_mutation, lemma_fraction_digit_bounds,
    lemma_fresh_build_never_faults, lemma_lenient_skip, lemma_lock_is_monotonic,
    lemma_render_truncates, lemma_report_idempotent, lemma_resolve_undisputed,
};
pub use crate::render::{
    bool_str, csv_str, dec_digits, digit_char, frac_digits, money_mag, money_str, money_to_string,
    row_str, rows_str,
};
pub use crate::transaction::{
    Transaction, TransactionError, TransactionType, Transactions, AMOUNT_SCALE,
};
pub use crate::types::{ClientId, TransactionId};
