//! Random `(Key, BigStruct)` pair generation.
//!
//! A generator draws a fixed number of random pairs. Every record handed out
//! by one generator carries the same filler payload, drawn once when the
//! generator is created: the payload exists only to inflate each record's
//! memory footprint, and sharing it is a deliberate design choice.

use vstd::prelude::*;

verus! {

/// A 16-byte random key, the element of the inverse index's key sets.
pub type Key = [u8; 16];

/// A 20-byte random reference value, the thing the inverse index indexes by.
pub type RefValue = [u8; 20];

/// The filler payload attached to each record to bloat its memory footprint.
pub type DummyData = [u8; 512];

/// A record: one reference value plus a block of filler bytes whose content
/// is irrelevant to correctness.
#[derive(Clone, Copy)]
pub struct BigStruct {
    pub uuid: RefValue,
    pub dum: DummyData,
}

/// Relies on rand's `thread_rng` and `Rng::gen` for `[u8; 16]`: draws 16
/// uniformly random bytes. Nothing can be promised of the value drawn.
#[verifier::external_body]
fn random_key() -> Key {
    rand::Rng::gen(&mut rand::thread_rng())
}

/// Relies on rand's `thread_rng` and `Rng::gen` for `[u8; 20]`: draws 20
/// uniformly random bytes. Nothing can be promised of the value drawn.
#[verifier::external_body]
fn random_ref_value() -> RefValue {
    rand::Rng::gen(&mut rand::thread_rng())
}

/// Relies on rand's `Rng::sample_iter` with the `Alphanumeric` distribution:
/// draws 512 random alphanumeric bytes. Nothing can be promised of the value
/// drawn.
#[verifier::external_body]
fn random_filler() -> DummyData {
    let rng = rand::thread_rng();
    let bytes: Vec<u8> = rand::Rng::sample_iter(rng, rand::distributions::Alphanumeric)
        .take(512)
        .collect();
    bytes.try_into().unwrap()
}

/// A finite source of random `(Key, BigStruct)` pairs. It hands out exactly
/// the number of pairs it was created with, one at a time, each record
/// sharing the generator's single filler payload.
pub struct PairGenerator {
    remaining: u32,
    filler: DummyData,
}

impl PairGenerator {
    /// How many pairs this generator has yet to hand out.
    pub closed spec fn remaining(&self) -> nat {
        self.remaining as nat
    }

    /// The filler payload every record of this generator carries.
    pub closed spec fn filler(&self) -> Seq<u8> {
        self.filler@
    }

    /// Hands out the next random pair, or nothing once the requested count
    /// is exhausted. The record's filler payload is the generator's own,
    /// shared across all pairs of this generator.
    pub fn next_pair(&mut self) -> (r: Option<(Key, BigStruct)>)
        ensures
            final(self).filler() == old(self).filler(),
            old(self).remaining() == 0 ==> r is None && final(self).remaining() == 0,
            old(self).remaining() > 0 ==> {
                &&& r is Some
                &&& final(self).remaining() == old(self).remaining() - 1
                &&& r->Some_0.1.dum@ == old(self).filler()
            },
    {
        if self.remaining == 0 {
            None
        } else {
            self.remaining = self.remaining - 1;
            Some((
                random_key(),
                BigStruct { uuid: random_ref_value(), dum: self.filler },
            ))
        }
    }
}

/// Creates a generator of exactly `amount` random pairs, drawing the shared
/// filler payload once, up front.
pub fn generate_random_pairs(amount: u32) -> (g: PairGenerator)
    ensures
        g.remaining() == amount,
{
    PairGenerator { remaining: amount, filler: random_filler() }
}

} // verus!
