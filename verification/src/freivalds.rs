//! The Freivalds verifier: sample r, build the power vector
//! x = (r, r^2, ..., r^n), and accept iff A·(B·x) == C·x in the field.

use vstd::prelude::*;
use crate::field::FieldElement;
use crate::field::FqConfig;
use crate::matrix::Matrix;
use crate::matrix::Vector;
use crate::matrix::mat_vec;
use crate::matrix::vec_vals;
use crate::matrix::vec_wf;
use crate::matrix::vectors_equal;
use crate::sampler::RandomSampler;
use crate::Error;

verus! {

/// r^k mod p, reduced after every multiplication.
pub open spec fn pow_mod(r: int, k: nat, p: int) -> int
    decreases k,
{
    if k == 0 {
        1int % p
    } else {
        (pow_mod(r, (k - 1) as nat, p) * r) % p
    }
}

/// The power vector (r^1, r^2, ..., r^n) mod p.
pub open spec fn power_seq(r: int, n: nat, p: int) -> Seq<int> {
    Seq::new(n, |i: int| pow_mod(r, (i + 1) as nat, p))
}

/// The verdict Freivalds' check reaches on matrices a, b, c for the probe
/// value r: whether A·(B·x) and C·x agree, with x the power vector of r.
pub open spec fn freivalds_accepts(
    a: Seq<Seq<int>>,
    b: Seq<Seq<int>>,
    c: Seq<Seq<int>>,
    r: int,
    p: int,
) -> bool {
    let x = power_seq(r, a.len() as nat, p);
    mat_vec(a, mat_vec(b, x, p), p) == mat_vec(c, x, p)
}

/// The protocol's precondition: a, b and c all square with one common
/// dimension n.
pub open spec fn square_system(a: &Matrix, b: &Matrix, c: &Matrix) -> bool {
    &&& a.spec_cols() == a@.len()
    &&& b@.len() == a@.len()
    &&& b.spec_cols() == a@.len()
    &&& c@.len() == a@.len()
    &&& c.spec_cols() == a@.len()
}

/// All three matrices live in one field, that of modulus p.
pub open spec fn shared_field(a: &Matrix, b: &Matrix, c: &Matrix, p: int) -> bool {
    &&& a.wf()
    &&& b.wf()
    &&& c.wf()
    &&& a.spec_modulus() == p
    &&& b.spec_modulus() == p
    &&& c.spec_modulus() == p
}

/// Build the power vector (r, r^2, ..., r^n) by repeated field
/// multiplication, so every entry stays reduced.
pub fn power_vector(r: &FieldElement, n: usize) -> (x: Vector)
    requires
        r.wf(),
    ensures
        x@.len() == n,
        vec_wf(x@, r.spec_modulus()),
        vec_vals(x@) == power_seq(r.spec_value(), n as nat, r.spec_modulus()),
{
    let ghost rv: int = r.spec_value();
    let ghost p: int = r.spec_modulus();
    let cfg: FqConfig = r.config();
    let mut x: Vector = Vec::new();
    let mut temp: FieldElement = FieldElement::from_u64(1, &cfg);
    let mut i: usize = 0;
    while i < n
        invariant
            0 <= i <= n,
            r.wf(),
            rv == r.spec_value(),
            p == r.spec_modulus(),
            cfg.wf(),
            cfg.spec_modulus() == p,
            temp.wf(),
            temp.spec_modulus() == p,
            temp.spec_value() == pow_mod(rv, i as nat, p),
            x@.len() == i as int,
            vec_wf(x@, p),
            forall|k: int| 0 <= k < i ==> vec_vals(x@)[k] == pow_mod(rv, (k + 1) as nat, p),
        decreases n - i,
    {
        temp = temp.mul(r);
        let ghost x_old: Seq<FieldElement> = x@;
        x.push(temp);
        proof {
            assert forall|k: int| 0 <= k < i + 1 implies vec_vals(x@)[k] == pow_mod(
                rv,
                (k + 1) as nat,
                p,
            ) by {
                if k < i as int {
                    assert(x@[k] == x_old[k]);
                    assert(vec_vals(x_old)[k] == pow_mod(rv, (k + 1) as nat, p));
                } else {
                    assert(x@[k] == temp);
                }
            }
        }
        i += 1;
    }
    proof {
        assert(vec_vals(x@) =~= power_seq(rv, n as nat, p));
    }
    x
}

/// The Freivalds verifier: a sampler together with the field it samples
/// from. One instance serves one sequence of independent trials.
pub struct FreivaldsVerifier {
    sampler: RandomSampler,
    cfg: FqConfig,
}

impl FreivaldsVerifier {
    /// The modulus p of the field this verifier works over.
    pub closed spec fn spec_modulus(&self) -> int {
        self.cfg.spec_modulus()
    }

    /// A usable verifier: its field configuration is usable.
    pub closed spec fn wf(&self) -> bool {
        self.cfg.wf()
    }

    /// A verifier whose sampler is seeded from the operating system.
    pub fn new(cfg: &FqConfig) -> (v: FreivaldsVerifier)
        requires
            cfg.wf(),
        ensures
            v.wf(),
            v.spec_modulus() == cfg.spec_modulus(),
    {
        FreivaldsVerifier { sampler: RandomSampler::new(), cfg: *cfg }
    }

    /// A verifier with an injected sampler seed, for reproducible runs.
    pub fn with_seed(cfg: &FqConfig, seed: u64) -> (v: FreivaldsVerifier)
        requires
            cfg.wf(),
        ensures
            v.wf(),
            v.spec_modulus() == cfg.spec_modulus(),
    {
        FreivaldsVerifier { sampler: RandomSampler::from_seed(seed), cfg: *cfg }
    }

    /// One run of the protocol with the probe r given by the caller: a
    /// pure, deterministic function of its inputs, as the contract pins the
    /// verdict down completely. Fails iff the matrices are not all square
    /// of one common dimension; the verdict `false` is not an error.
    pub fn verify_with_r(a: &Matrix, b: &Matrix, c: &Matrix, r: &FieldElement) -> (res: Result<
        bool,
        Error,
    >)
        requires
            shared_field(a, b, c, r.spec_modulus()),
            r.wf(),
        ensures
            res is Ok <==> square_system(a, b, c),
            res matches Err(e) ==> e == Error::DimensionMismatch,
            res matches Ok(accept) ==> accept == freivalds_accepts(
                a@,
                b@,
                c@,
                r.spec_value(),
                r.spec_modulus(),
            ),
    {
        let ghost p: int = r.spec_modulus();
        let n: usize = a.num_rows();
        if a.num_cols() != n || b.num_rows() != n || b.num_cols() != n || c.num_rows() != n
            || c.num_cols() != n {
            return Err(Error::DimensionMismatch);
        }
        let x: Vector = power_vector(r, n);
        let w: Vector = match b.mul_vector(&x) {
            Ok(w) => w,
            Err(_) => {
                proof {
                    assert(false);
                }
                return Err(Error::DimensionMismatch);
            },
        };
        let y: Vector = match a.mul_vector(&w) {
            Ok(y) => y,
            Err(_) => {
                proof {
                    assert(false);
                }
                return Err(Error::DimensionMismatch);
            },
        };
        let z: Vector = match c.mul_vector(&x) {
            Ok(z) => z,
            Err(_) => {
                proof {
                    assert(false);
                }
                return Err(Error::DimensionMismatch);
            },
        };
        let cfg: FqConfig = r.config();
        let accept: bool = vectors_equal(&y, &z, &cfg);
        Ok(accept)
    }

    /// One full run: draw r uniformly from the field, then check
    /// A·(B·x) == C·x for the power vector x of r. Whatever the draw, the
    /// verdict is the one `freivalds_accepts` gives for some field element
    /// r; a single run is the protocol's unit, and callers wanting a
    /// smaller false-accept bound repeat it with fresh draws.
    pub fn verify(&mut self, a: &Matrix, b: &Matrix, c: &Matrix) -> (res: Result<bool, Error>)
        requires
            old(self).wf(),
            shared_field(a, b, c, old(self).spec_modulus()),
        ensures
            final(self).wf(),
            final(self).spec_modulus() == old(self).spec_modulus(),
            res is Ok <==> square_system(a, b, c),
            res matches Err(e) ==> e == Error::DimensionMismatch,
            res matches Ok(accept) ==> exists|rv: int|
                0 <= rv < old(self).spec_modulus() && accept == freivalds_accepts(
                    a@,
                    b@,
                    c@,
                    rv,
                    old(self).spec_modulus(),
                ),
    {
        let cfg: FqConfig = self.cfg;
        let r: FieldElement = self.sampler.sample(&cfg);
        let res: Result<bool, Error> = Self::verify_with_r(a, b, c, &r);
        proof {
            if res is Ok {
                assert(0 <= r.spec_value() < self.spec_modulus());
            }
        }
        res
    }
}

} // verus!
