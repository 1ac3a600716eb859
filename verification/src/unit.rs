//! The caller-facing capability contract: a candidate solution ("unit")
//! exposes a fitness score and a recombination operator. The engine itself is
//! domain-agnostic and only reads units through this interface.

use vstd::prelude::*;

verus! {

/// The sign bit of a 64-bit IEEE-754 encoding.
pub const SIGN_BIT: u64 = 0x8000_0000_0000_0000;

/// The 64-bit IEEE-754 encoding of the perfect score, one.
pub const PERFECT_BITS: u64 = 0x3FF0_0000_0000_0000;

/// A fitness score, carried as the bit pattern of a 64-bit IEEE-754 value.
///
/// The engine never does arithmetic on scores; it only orders them and tests
/// for the perfect score. Callers build one from the bits of their score
/// (conventionally in the closed interval from zero to one, with one meaning
/// maximum success). Ordering is by [`Fitness::key`], which places negative
/// encodings below positive ones and both zero encodings at the same rank,
/// agreeing with the numeric order of the encoded values.
#[derive(Clone, Copy, Debug, PartialEq, Eq, Structural)]
pub struct Fitness {
    pub bits: u64,
}

impl Fitness {
    /// The integer rank of a score: encodings with the sign bit clear keep
    /// their bit value, encodings with the sign bit set rank below all of
    /// them, lower the larger their magnitude. The two zero encodings share
    /// rank zero.
    pub open spec fn key(self) -> int {
        if self.bits < SIGN_BIT {
            self.bits as int
        } else {
            SIGN_BIT - self.bits as int
        }
    }

    /// Whether this is exactly the perfect score.
    pub open spec fn spec_is_perfect(self) -> bool {
        self.bits == PERFECT_BITS
    }

    pub fn from_bits(bits: u64) -> (r: Fitness)
        ensures
            r.bits == bits,
    {
        Fitness { bits }
    }

    /// The rank as a machine integer; every rank fits in a signed 64-bit word.
    pub fn key_i64(&self) -> (r: i64)
        ensures
            r as int == self.key(),
    {
        if self.bits < SIGN_BIT {
            self.bits as i64
        } else {
            let magnitude: u64 = self.bits - SIGN_BIT;
            -(magnitude as i64)
        }
    }

    pub fn is_perfect(&self) -> (r: bool)
        ensures
            r == self.spec_is_perfect(),
    {
        self.bits == PERFECT_BITS
    }
}

/// Only the perfect score has the perfect rank: the rank function is
/// injective everywhere except at the two encodings of zero, and the perfect
/// rank is not zero.
pub proof fn lemma_perfect_rank(a: Fitness)
    ensures
        a.key() == (Fitness { bits: PERFECT_BITS }).key() <==> a.spec_is_perfect(),
{
}

/// A discrete set of variables to hold against a fitness function, breeding
/// children by mixing those variables.
///
/// The two specification members pin each operation down as a mathematical
/// function of the operands: the engine's contracts (in particular the
/// determinism of a run under a fixed seed) are proved under that reading, so
/// an implementation whose fitness or breeding draws on outside state (a
/// clock, an unseeded random source) steps outside this contract, and the
/// engine then promises nothing beyond memory safety about the run's result.
pub trait Unit: Sized + Send {
    /// The fitness of this unit, as a mathematical function of its
    /// variables. A verified implementation overrides this to say what its
    /// fitness operation computes; the default is a placeholder that an
    /// unverified implementation may leave as it is.
    open spec fn spec_fitness(&self) -> Fitness {
        Fitness { bits: 0 }
    }

    /// The child bred from this unit and another, as a mathematical function
    /// of the two. A verified implementation overrides this to say what its
    /// breeding operation computes; the default is a placeholder that an
    /// unverified implementation may leave as it is.
    open spec fn spec_breed(&self, other: &Self) -> Self {
        *self
    }

    /// Calculate the relative fitness of this unit. Should return a score
    /// between zero and one, where one is maximum success; the engine does
    /// not enforce that convention, it only orders whatever comes back.
    fn fitness(&self) -> (r: Fitness)
        ensures
            r == self.spec_fitness(),
    ;

    /// Create a new unit by merging variable qualities of this one and one
    /// other.
    fn breed_with(&self, other: &Self) -> (r: Self)
        ensures
            r == self.spec_breed(other),
    ;
}

/// The rank a unit is selected by.
pub open spec fn fkey<T: Unit>(u: T) -> int {
    u.spec_fitness().key()
}

/// Whether a unit scores the perfect fitness.
pub open spec fn is_perfect_unit<T: Unit>(u: T) -> bool {
    u.spec_fitness().spec_is_perfect()
}

} // verus!
