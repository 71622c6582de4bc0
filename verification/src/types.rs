use vstd::prelude::*;

verus! {

/// Identity of a client; every account belongs to exactly one client.
pub type ClientId = u16;

/// Identity of a transaction, unique across the whole input stream.
pub type TransactionId = u32;

} // verus!
