//! Modular arithmetic over a prime field Z_p with a runtime modulus.
//!
//! Every stored value is kept fully reduced into [0, p). The modulus is
//! chosen at construction time through [`FqConfig`], so one build supports
//! arbitrary prime moduli; elements of different moduli never mix (the
//! contracts demand a shared modulus). Primality of p is not checked here:
//! the arithmetic below is well defined for any p >= 2, and the soundness
//! bound of the protocol is what depends on p being prime.

use vstd::prelude::*;
use vstd::arithmetic::div_mod::lemma_mod_add_multiples_vanish;
use vstd::arithmetic::div_mod::lemma_mod_bound;

verus! {

/// Runtime configuration of the field: the modulus p, fixed once for a
/// whole verification run and shared by every element that interoperates.
#[derive(Clone, Copy, Debug)]
pub struct FqConfig {
    modulus: u64,
}

impl FqConfig {
    /// The modulus p as a mathematical integer.
    pub closed spec fn spec_modulus(&self) -> int {
        self.modulus as int
    }

    /// A usable configuration: p at least 2 (every prime is).
    pub open spec fn wf(&self) -> bool {
        self.spec_modulus() >= 2
    }

    pub fn new(modulus: u64) -> (c: FqConfig)
        requires
            modulus >= 2,
        ensures
            c.wf(),
            c.spec_modulus() == modulus as int,
    {
        FqConfig { modulus }
    }

    pub fn modulus(&self) -> (m: u64)
        ensures
            m as int == self.spec_modulus(),
    {
        self.modulus
    }
}

/// A residue modulo p: an unsigned integer in [0, p) together with the
/// modulus it was reduced by.
#[derive(Clone, Copy, Debug)]
pub struct FieldElement {
    value: u64,
    modulus: u64,
}

impl FieldElement {
    /// The reduced representative in [0, p).
    pub closed spec fn spec_value(&self) -> int {
        self.value as int
    }

    /// The modulus p this element was reduced by.
    pub closed spec fn spec_modulus(&self) -> int {
        self.modulus as int
    }

    /// Invariant: the value is fully reduced into [0, p), p >= 2.
    pub open spec fn wf(&self) -> bool {
        self.spec_modulus() >= 2 && 0 <= self.spec_value() < self.spec_modulus()
    }

    /// Both elements were built over the same modulus.
    pub open spec fn same_field(&self, other: &FieldElement) -> bool {
        self.spec_modulus() == other.spec_modulus()
    }

    /// Reduce an integer into the field.
    pub fn from_u64(v: u64, cfg: &FqConfig) -> (e: FieldElement)
        requires
            cfg.wf(),
        ensures
            e.wf(),
            e.spec_modulus() == cfg.spec_modulus(),
            e.spec_value() == v as int % cfg.spec_modulus(),
    {
        FieldElement { value: v % cfg.modulus(), modulus: cfg.modulus() }
    }

    /// The configuration of the field this element lives in.
    pub fn config(&self) -> (c: FqConfig)
        requires
            self.wf(),
        ensures
            c.wf(),
            c.spec_modulus() == self.spec_modulus(),
    {
        FqConfig::new(self.modulus)
    }

    /// The reduced representative, as a machine integer.
    pub fn value(&self) -> (v: u64)
        ensures
            v as int == self.spec_value(),
    {
        self.value
    }

    /// Field addition: (a + b) mod p.
    pub fn add(&self, other: &FieldElement) -> (r: FieldElement)
        requires
            self.wf(),
            other.wf(),
            self.same_field(other),
        ensures
            r.wf(),
            r.spec_modulus() == self.spec_modulus(),
            r.spec_value() == (self.spec_value() + other.spec_value()) % self.spec_modulus(),
    {
        let s: u128 = self.value as u128 + other.value as u128;
        let p: u128 = self.modulus as u128;
        let v: u128 = s % p;
        FieldElement { value: v as u64, modulus: self.modulus }
    }

    /// Field subtraction: (a - b) mod p, kept nonnegative by adding p first.
    pub fn sub(&self, other: &FieldElement) -> (r: FieldElement)
        requires
            self.wf(),
            other.wf(),
            self.same_field(other),
        ensures
            r.wf(),
            r.spec_modulus() == self.spec_modulus(),
            r.spec_value() == (self.spec_value() - other.spec_value()) % self.spec_modulus(),
    {
        let s: u128 = self.value as u128 + self.modulus as u128 - other.value as u128;
        let p: u128 = self.modulus as u128;
        let v: u128 = s % p;
        proof {
            lemma_mod_add_multiples_vanish(
                self.spec_value() - other.spec_value(),
                self.spec_modulus(),
            );
        }
        FieldElement { value: v as u64, modulus: self.modulus }
    }

    /// Field multiplication: (a * b) mod p, with a double-width intermediate
    /// so no overflow is observable.
    pub fn mul(&self, other: &FieldElement) -> (r: FieldElement)
        requires
            self.wf(),
            other.wf(),
            self.same_field(other),
        ensures
            r.wf(),
            r.spec_modulus() == self.spec_modulus(),
            r.spec_value() == (self.spec_value() * other.spec_value()) % self.spec_modulus(),
    {
        proof {
            vstd::arithmetic::mul::lemma_mul_upper_bound(
                self.value as int,
                0xffffffffffffffff,
                other.value as int,
                0xffffffffffffffff,
            );
        }
        let s: u128 = self.value as u128 * other.value as u128;
        let p: u128 = self.modulus as u128;
        let v: u128 = s % p;
        proof {
            lemma_mod_bound(s as int, p as int);
        }
        FieldElement { value: v as u64, modulus: self.modulus }
    }

    /// True iff the reduced representations are identical.
    pub fn equals(&self, other: &FieldElement) -> (r: bool)
        requires
            self.same_field(other),
        ensures
            r == (self.spec_value() == other.spec_value()),
    {
        self.value == other.value
    }
}

} // verus!
