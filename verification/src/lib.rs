//! Verified core of a UTXO block-explorer backend with an SLP token overlay.
//!
//! The crate ingests block data, classifies transactions against the token
//! protocol, maintains per-address ledgers and UTXO sets, and answers
//! structured queries. Everything here is verified; rendering and transport
//! live outside the library.

use vstd::prelude::*;

pub mod primitives;
pub mod script;
pub mod slp;
pub mod store;
pub mod ingest;
pub mod balance;
pub mod server;
pub mod hexstr;
pub mod sync;

verus! {

/// Compares two byte slices for equality.
pub fn bytes_eq(a: &[u8], b: &[u8]) -> (r: bool)
    ensures
        r <==> a@ == b@,
{
    if a.len() != b.len() {
        assert(a@.len() != b@.len());
        return false;
    }
    let mut i: usize = 0;
    while i < a.len()
        invariant
            0 <= i <= a@.len(),
            a@.len() == b@.len(),
            forall|j: int| 0 <= j < i ==> a@[j] == b@[j],
        decreases a@.len() - i,
    {
        if a[i] != b[i] {
            return false;
        }
        i += 1;
    }
    assert(a@ =~= b@);
    true
}

} // verus!
