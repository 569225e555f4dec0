//! Arithmetic model of the cryptographic values the ledger works with.
//!
//! The ledger itself never verifies signatures or range proofs; it only adds,
//! subtracts and compares commitments, scalars and digests.  Those values are
//! therefore modelled as elements of the additive group of 64-bit words:
//! `Pt` stands for a curve point, `Fr` for a scalar, and `Digest` for a digest.
//! The group generator is the word `1`, so a commitment to an amount `a` with
//! blinding factor `g` is the word `a + g` modulo `2^64`.  Every operation the
//! ledger relies on (associativity, commutativity, inverses) holds exactly.

use vstd::prelude::*;

verus! {

/// Multiplier of the digest mixing step.
pub const MIX_PRIME: u64 = 0x100000001b3;

/// Initial state of every digest computation.
pub const MIX_SEED: u64 = 0xcbf29ce484222325;

/// Word folded in before a seed hash for the in-epoch randomness.
pub const VIEW_CHANGE_DOMAIN: u64 = 0x56494557;

/// Word from which the hash preceding any genesis block is derived.
pub const GENESIS_DOMAIN: u64 = 0x47454e45534953;

/// One digest mixing step: fold `word` into the accumulator `acc`.
pub open spec fn mix64(acc: u64, word: u64) -> u64 {
    (acc ^ word).wrapping_mul(MIX_PRIME)
}

/// Executable twin of [`mix64`].
pub fn mix64_exec(acc: u64, word: u64) -> (r: u64)
    ensures
        r == mix64(acc, word),
{
    (acc ^ word).wrapping_mul(MIX_PRIME)
}

/// A digest value.
#[derive(Clone, Copy, PartialEq, Eq, Structural, PartialOrd, Ord, Debug)]
pub struct Digest {
    pub value: u64,
}

/// Digest obtained by mixing a single word.
pub open spec fn spec_digest_u64(x: u64) -> Digest {
    Digest { value: mix64(MIX_SEED, x) }
}

/// The well-known hash that precedes every genesis block.
pub open spec fn spec_genesis_seed() -> Digest {
    Digest { value: mix64(MIX_SEED, GENESIS_DOMAIN) }
}

/// Seed for the verifiable random function of the next block:
/// a domain-separated mix of the previous randomness and the view change.
pub open spec fn spec_mix(random: Digest, view_change: u32) -> Digest {
    Digest { value: mix64(mix64(mix64(MIX_SEED, VIEW_CHANGE_DOMAIN), random.value), view_change as u64) }
}

impl Digest {
    /// Digest of a single word; used for stand-alone seed values.
    pub fn digest_u64(x: u64) -> (h: Digest)
        ensures
            h == spec_digest_u64(x),
    {
        Digest { value: mix64_exec(MIX_SEED, x) }
    }

    /// The well-known hash that precedes every genesis block.
    pub fn genesis_seed() -> (h: Digest)
        ensures
            h == spec_genesis_seed(),
    {
        Digest { value: mix64_exec(MIX_SEED, GENESIS_DOMAIN) }
    }
}

/// Seed for the verifiable random function of the next block.
pub fn mix(random: Digest, view_change: u32) -> (h: Digest)
    ensures
        h == spec_mix(random, view_change),
{
    let a = mix64_exec(MIX_SEED, VIEW_CHANGE_DOMAIN);
    let b = mix64_exec(a, random.value);
    Digest { value: mix64_exec(b, view_change as u64) }
}

/// A scalar: a blinding factor or an aggregate of blinding factors.
#[derive(Clone, Copy, PartialEq, Eq, Structural, Debug)]
pub struct Fr {
    pub value: u64,
}

/// Scalar addition.
pub open spec fn fr_add(a: Fr, b: Fr) -> Fr {
    Fr { value: a.value.wrapping_add(b.value) }
}

/// Scalar negation.
pub open spec fn fr_neg(a: Fr) -> Fr {
    Fr { value: (0u64).wrapping_sub(a.value) }
}

impl Fr {
    /// The zero scalar.
    pub fn zero() -> (r: Fr)
        ensures
            r == (Fr { value: 0u64 }),
    {
        Fr { value: 0 }
    }

    /// Build a scalar from a word.
    pub fn from_u64(x: u64) -> (r: Fr)
        ensures
            r == (Fr { value: x }),
    {
        Fr { value: x }
    }

    /// Sum of two scalars.
    pub fn add(self, other: Fr) -> (r: Fr)
        ensures
            r == fr_add(self, other),
    {
        Fr { value: self.value.wrapping_add(other.value) }
    }

    /// Additive inverse.
    pub fn neg(self) -> (r: Fr)
        ensures
            r == fr_neg(self),
    {
        Fr { value: (0u64).wrapping_sub(self.value) }
    }

    /// The point committed to by this scalar alone: `self` times the generator.
    pub fn times_g(self) -> (r: Pt)
        ensures
            r == fr_times_g(self),
    {
        Pt { value: self.value }
    }
}

/// The point `a` times the generator; the generator is the word `1`.
pub open spec fn fr_times_g(a: Fr) -> Pt {
    Pt { value: a.value }
}

/// A group element: a Pedersen commitment or a sum of commitments.
#[derive(Clone, Copy, PartialEq, Eq, Structural, Debug)]
pub struct Pt {
    pub value: u64,
}

/// Group addition.
pub open spec fn pt_add(a: Pt, b: Pt) -> Pt {
    Pt { value: a.value.wrapping_add(b.value) }
}

/// Group subtraction.
pub open spec fn pt_sub(a: Pt, b: Pt) -> Pt {
    Pt { value: a.value.wrapping_sub(b.value) }
}

impl Pt {
    /// The group identity.
    pub fn identity() -> (r: Pt)
        ensures
            r == (Pt { value: 0u64 }),
    {
        Pt { value: 0 }
    }

    /// Sum of two group elements.
    pub fn add(self, other: Pt) -> (r: Pt)
        ensures
            r == pt_add(self, other),
    {
        Pt { value: self.value.wrapping_add(other.value) }
    }

    /// Difference of two group elements.
    pub fn sub(self, other: Pt) -> (r: Pt)
        ensures
            r == pt_sub(self, other),
    {
        Pt { value: self.value.wrapping_sub(other.value) }
    }
}

/// The amount `x` mapped to a group element over the amount generator,
/// which coincides with the main generator in this model.
pub open spec fn fee_a(x: i64) -> Pt {
    Pt { value: x as u64 }
}

/// Executable twin of [`fee_a`].
pub fn fee_a_exec(x: i64) -> (r: Pt)
    ensures
        r == fee_a(x),
{
    Pt { value: x as u64 }
}

/// Network key of a validator.
#[derive(Clone, Copy, PartialEq, Eq, Structural, PartialOrd, Ord, Debug)]
pub struct NetworkKey {
    pub value: u64,
}

/// Account (payment) key of a recipient.
#[derive(Clone, Copy, PartialEq, Eq, Structural, PartialOrd, Ord, Debug)]
pub struct AccountKey {
    pub value: u64,
}

/// Secret half of an account key pair; a pair matches when the words agree.
#[derive(Clone, Copy, PartialEq, Eq, Structural, Debug)]
pub struct AccountSecret {
    pub value: u64,
}

impl AccountSecret {
    /// Whether this secret opens payloads addressed to `key`.
    pub fn unlocks(&self, key: &AccountKey) -> (r: bool)
        ensures
            r == (self.value == key.value),
    {
        self.value == key.value
    }
}

/// Output of the verifiable random function carried by each block.
#[derive(Clone, Copy, PartialEq, Eq, Structural, Debug)]
pub struct Vrf {
    pub rand: Digest,
}

} // verus!
