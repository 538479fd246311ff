//! A minimal proof-of-work ledger: accounts, a mempool of pending
//! transfers, and an append-only chain of blocks sealed by a hash-prefix
//! puzzle, together with the address book that peer propagation runs on.

pub mod accounts;
pub mod block;
pub mod codec;
pub mod digest;
pub mod hex;
pub mod ledger;
pub mod peers;
pub mod strutil;

use vstd::prelude::*;

verus! {

/// A hash string satisfies the difficulty predicate when its first four
/// characters are the digit '0'.
pub open spec fn is_valid_hash_spec(s: Seq<char>) -> bool {
    s.len() >= 4 && s[0] == '0' && s[1] == '0' && s[2] == '0' && s[3] == '0'
}

} // verus!
