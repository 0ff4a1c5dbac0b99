//! Advisory lookup keys and the pure selection they induce: which
//! stored advisory a key picks out of a digest index. Fetching the
//! rows themselves is the relational store's work.

use vstd::prelude::*;

verus! {

/// A key identifying one advisory.
#[derive(Debug)]
pub enum AdvisoryKey {
    /// The SHA-256 digest of the advisory document, in hex.
    Sha256(String),
}

impl AdvisoryKey {
    pub fn digest(&self) -> (r: &String)
        ensures
            match self {
                AdvisoryKey::Sha256(d) => r@ == d@,
            },
    {
        match self {
            AdvisoryKey::Sha256(d) => d,
        }
    }
}

/// The first advisory whose digest the key names, if any: the
/// selection behind a fetch by key.
pub fn select_advisory(digests: &Vec<String>, key: &AdvisoryKey) -> (r: Option<usize>)
    ensures
        match r {
            Some(i) => i < digests@.len() && digests@[i as int]@ == match key {
                AdvisoryKey::Sha256(d) => d@,
            } && forall|j: int| 0 <= j < i as int ==> (#[trigger] digests@[j]@) != match key {
                AdvisoryKey::Sha256(d) => d@,
            },
            None => forall|j: int|
                0 <= j < digests@.len() ==> (#[trigger] digests@[j]@) != match key {
                    AdvisoryKey::Sha256(d) => d@,
                },
        },
{
    let d = key.digest();
    let mut i: usize = 0;
    while i < digests.len()
        invariant
            i <= digests@.len(),
            d@ == match key {
                AdvisoryKey::Sha256(x) => x@,
            },
            forall|j: int| 0 <= j < i as int ==> (#[trigger] digests@[j]@) != d@,
        decreases digests@.len() - i as int,
    {
        if digests[i] == *d {
            return Some(i);
        }
        i += 1;
    }
    None
}

} // verus!
