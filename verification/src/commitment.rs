//! The commitment level at which the ledger is queried.

use crate::text::str_same;
use vstd::prelude::*;

verus! {

/// How settled a slot must be before the node reports it.
#[derive(Debug, Clone, Copy, PartialEq, Eq, Structural)]
pub enum Commitment {
    Processed,
    Confirmed,
    Finalized,
}

/// The level that a configured name selects: `processed` and `confirmed`
/// select themselves, every other name selects `Finalized`.
pub open spec fn commitment_of(value: Seq<char>) -> Commitment {
    if value == "processed"@ {
        Commitment::Processed
    } else if value == "confirmed"@ {
        Commitment::Confirmed
    } else {
        Commitment::Finalized
    }
}

/// Reads a commitment level from its configured name.
pub fn commitment_from_str(value: &str) -> (c: Commitment)
    ensures
        c == commitment_of(value@),
{
    if str_same(value, "processed") {
        Commitment::Processed
    } else if str_same(value, "confirmed") {
        Commitment::Confirmed
    } else {
        Commitment::Finalized
    }
}

/// Each level is selected by its own name.
pub proof fn lemma_commitment_names()
    ensures
        commitment_of("processed"@) == Commitment::Processed,
        commitment_of("confirmed"@) == Commitment::Confirmed,
        commitment_of("finalized"@) == Commitment::Finalized,
{
    reveal_strlit("processed");
    reveal_strlit("confirmed");
    reveal_strlit("finalized");
    assert("processed"@[0] != "confirmed"@[0]);
    assert("finalized"@[0] != "confirmed"@[0]);
    assert("finalized"@[0] != "processed"@[0]);
}

} // verus!
