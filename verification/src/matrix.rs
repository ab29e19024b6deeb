//! Dense vectors and matrices of field elements, with the modular
//! dot-product and matrix-vector multiplication that Freivalds' check is
//! built from.
//!
//! The mathematical model works over `Seq<int>`: `dot` and `mat_vec` reduce
//! modulo p at every step, exactly as the executable code does, and `idot`
//! is the plain integer dot-product used to relate the two.

use vstd::prelude::*;
use crate::field::FieldElement;
use crate::field::FqConfig;
use crate::Error;

verus! {

/// A dense vector of field elements.
pub type Vector = Vec<FieldElement>;

/// Every element is reduced and belongs to the field of modulus p.
pub open spec fn vec_wf(s: Seq<FieldElement>, p: int) -> bool {
    forall|i: int| 0 <= i < s.len() ==> (#[trigger] s[i]).wf() && s[i].spec_modulus() == p
}

/// The residues held by a vector.
pub open spec fn vec_vals(s: Seq<FieldElement>) -> Seq<int> {
    Seq::new(s.len(), |i: int| s[i].spec_value())
}

/// Modular dot-product, reduced after every addition and multiplication,
/// accumulated left to right.
pub open spec fn dot(u: Seq<int>, v: Seq<int>, p: int) -> int
    decreases u.len(),
{
    if u.len() == 0 {
        0
    } else {
        (dot(u.drop_last(), v.drop_last(), p) + (u.last() * v.last()) % p) % p
    }
}

/// Plain integer dot-product, no reduction.
pub open spec fn idot(u: Seq<int>, v: Seq<int>) -> int
    decreases u.len(),
{
    if u.len() == 0 {
        0
    } else {
        idot(u.drop_last(), v.drop_last()) + u.last() * v.last()
    }
}

/// Column j of a matrix given as a sequence of rows.
pub open spec fn col(m: Seq<Seq<int>>, j: int) -> Seq<int> {
    Seq::new(m.len(), |i: int| m[i][j])
}

/// Matrix-vector product y with y[i] = m[i] · x (mod p).
pub open spec fn mat_vec(m: Seq<Seq<int>>, x: Seq<int>, p: int) -> Seq<int> {
    Seq::new(m.len(), |i: int| dot(m[i], x, p))
}

/// Square matrix product in the field: entry (i, j) is row i of a against
/// column j of b, reduced modulo p.
pub open spec fn mat_mul(a: Seq<Seq<int>>, b: Seq<Seq<int>>, p: int) -> Seq<Seq<int>> {
    Seq::new(a.len(), |i: int| Seq::new(a.len(), |j: int| dot(a[i], col(b, j), p)))
}

/// m is a rows × cols grid.
pub open spec fn is_grid(m: Seq<Seq<int>>, rows: nat, cols: nat) -> bool {
    m.len() == rows && forall|i: int| 0 <= i < rows ==> (#[trigger] m[i]).len() == cols
}

/// A dense matrix: rows of equal length over one modulus. Construction
/// rejects ragged input, so multiplication never meets a malformed matrix.
pub struct Matrix {
    rows: Vec<Vec<FieldElement>>,
    cols: usize,
    cfg: FqConfig,
}

impl View for Matrix {
    type V = Seq<Seq<int>>;

    /// The grid of residues.
    closed spec fn view(&self) -> Seq<Seq<int>> {
        Seq::new(self.rows@.len(), |i: int| vec_vals(self.rows@[i]@))
    }
}

impl Matrix {
    /// Number of columns (the common row length).
    pub closed spec fn spec_cols(&self) -> int {
        self.cols as int
    }

    /// The field modulus shared by all entries.
    pub closed spec fn spec_modulus(&self) -> int {
        self.cfg.spec_modulus()
    }

    /// Invariant: a usable modulus, every row of length `cols`, every entry
    /// reduced in that field.
    pub closed spec fn wf(&self) -> bool {
        &&& self.cfg.wf()
        &&& forall|i: int|
            0 <= i < self.rows@.len() ==> (#[trigger] self.rows@[i])@.len() == self.cols as int
        &&& forall|i: int|
            0 <= i < self.rows@.len() ==> vec_wf((#[trigger] self.rows@[i])@, self.spec_modulus())
    }

    /// The view is the grid the invariant promises.
    pub proof fn lemma_wf_view(&self)
        requires
            self.wf(),
        ensures
            is_grid(self@, self@.len() as nat, self.spec_cols() as nat),
            self.spec_cols() >= 0,
            self.spec_modulus() >= 2,
            forall|i: int, j: int|
                0 <= i < self@.len() && 0 <= j < self.spec_cols() ==> 0 <= #[trigger] self@[i][j]
                    < self.spec_modulus(),
    {
        assert forall|i: int| 0 <= i < self@.len() implies (#[trigger] self@[i]).len()
            == self.spec_cols() by {
            assert(self@[i] == vec_vals(self.rows@[i]@));
        }
    }

    /// Build a matrix from rows, rejecting ragged input: every row must
    /// have the length of the first.
    pub fn new(rows: Vec<Vec<FieldElement>>, cfg: &FqConfig) -> (res: Result<Matrix, Error>)
        requires
            cfg.wf(),
            forall|i: int|
                0 <= i < rows@.len() ==> vec_wf((#[trigger] rows@[i])@, cfg.spec_modulus()),
        ensures
            res is Ok <==> (forall|i: int|
                0 <= i < rows@.len() ==> (#[trigger] rows@[i])@.len() == rows@[0]@.len()),
            res matches Err(e) ==> e == Error::DimensionMismatch,
            res matches Ok(m) ==> {
                &&& m.wf()
                &&& m.spec_modulus() == cfg.spec_modulus()
                &&& m@ == Seq::new(rows@.len(), |i: int| vec_vals(rows@[i]@))
                &&& m@.len() == rows@.len()
                &&& m.spec_cols() == (if rows@.len() == 0 { 0int } else { rows@[0]@.len() as int })
            },
    {
        let cols: usize = if rows.len() == 0 {
            0
        } else {
            rows[0].len()
        };
        let mut i: usize = 0;
        while i < rows.len()
            invariant
                0 <= i <= rows@.len(),
                rows@.len() > 0 ==> cols as int == rows@[0]@.len(),
                rows@.len() == 0 ==> cols == 0,
                forall|k: int| 0 <= k < i ==> (#[trigger] rows@[k])@.len() == cols as int,
            decreases rows@.len() - i,
        {
            if rows[i].len() != cols {
                return Err(Error::DimensionMismatch);
            }
            i += 1;
        }
        Ok(Matrix { rows, cols, cfg: *cfg })
    }

    /// Number of rows.
    pub fn num_rows(&self) -> (n: usize)
        ensures
            n as int == self@.len(),
    {
        self.rows.len()
    }

    /// Number of columns.
    pub fn num_cols(&self) -> (n: usize)
        ensures
            n as int == self.spec_cols(),
    {
        self.cols
    }

    /// The entry at row i, column j.
    pub fn entry(&self, i: usize, j: usize) -> (e: FieldElement)
        requires
            self.wf(),
            i < self@.len(),
            j < self.spec_cols(),
        ensures
            e.wf(),
            e.spec_modulus() == self.spec_modulus(),
            e.spec_value() == self@[i as int][j as int],
    {
        proof {
            assert(self@[i as int] == vec_vals(self.rows@[i as int]@));
        }
        self.rows[i][j]
    }

    /// Row i of the matrix.
    pub fn row(&self, i: usize) -> (r: &Vector)
        requires
            self.wf(),
            i < self@.len(),
        ensures
            vec_wf(r@, self.spec_modulus()),
            vec_vals(r@) == self@[i as int],
            r@.len() == self.spec_cols(),
    {
        proof {
            assert(self@[i as int] == vec_vals(self.rows@[i as int]@));
        }
        &self.rows[i]
    }

    /// Matrix-vector multiplication in the field: row-by-row modular
    /// dot-products. Fails iff the vector's length differs from the
    /// column count.
    pub fn mul_vector(&self, x: &Vector) -> (res: Result<Vector, Error>)
        requires
            self.wf(),
            vec_wf(x@, self.spec_modulus()),
        ensures
            res is Ok <==> x@.len() == self.spec_cols(),
            res matches Err(e) ==> e == Error::DimensionMismatch,
            res matches Ok(y) ==> {
                &&& vec_wf(y@, self.spec_modulus())
                &&& y@.len() == self@.len()
                &&& vec_vals(y@) == mat_vec(self@, vec_vals(x@), self.spec_modulus())
            },
    {
        if x.len() != self.cols {
            return Err(Error::DimensionMismatch);
        }
        let ghost p: int = self.spec_modulus();
        let ghost xv: Seq<int> = vec_vals(x@);
        let mut y: Vector = Vec::new();
        let n: usize = self.rows.len();
        let mut i: usize = 0;
        while i < n
            invariant
                0 <= i <= n,
                n as int == self@.len(),
                self.wf(),
                vec_wf(x@, p),
                p == self.spec_modulus(),
                xv == vec_vals(x@),
                x@.len() == self.spec_cols(),
                y@.len() == i as int,
                vec_wf(y@, p),
                forall|k: int| 0 <= k < i ==> vec_vals(y@)[k] == dot(self@[k], xv, p),
            decreases n - i,
        {
            proof {
                assert(self@[i as int] == vec_vals(self.rows@[i as int]@));
            }
            let row_dot: FieldElement = Self::dot_product(&self.rows[i], x, &self.cfg);
            let ghost y_old: Seq<FieldElement> = y@;
            y.push(row_dot);
            proof {
                assert forall|k: int| 0 <= k < i + 1 implies vec_vals(y@)[k] == dot(
                    self@[k],
                    xv,
                    p,
                ) by {
                    if k < i as int {
                        assert(y@[k] == y_old[k]);
                        assert(vec_vals(y_old)[k] == dot(self@[k], xv, p));
                    } else {
                        assert(y@[k] == row_dot);
                    }
                }
            }
            i += 1;
        }
        proof {
            assert(vec_vals(y@) =~= mat_vec(self@, xv, p));
        }
        Ok(y)
    }

    /// Modular dot-product of two equally long vectors, accumulated left
    /// to right with a reduction at every step.
    fn dot_product(u: &Vector, x: &Vector, cfg: &FqConfig) -> (r: FieldElement)
        requires
            cfg.wf(),
            vec_wf(u@, cfg.spec_modulus()),
            vec_wf(x@, cfg.spec_modulus()),
            u@.len() == x@.len(),
        ensures
            r.wf(),
            r.spec_modulus() == cfg.spec_modulus(),
            r.spec_value() == dot(vec_vals(u@), vec_vals(x@), cfg.spec_modulus()),
    {
        let ghost p: int = cfg.spec_modulus();
        let mut acc: FieldElement = FieldElement::from_u64(0, cfg);
        let n: usize = u.len();
        let mut j: usize = 0;
        while j < n
            invariant
                0 <= j <= n,
                n as int == u@.len(),
                u@.len() == x@.len(),
                cfg.wf(),
                p == cfg.spec_modulus(),
                vec_wf(u@, p),
                vec_wf(x@, p),
                acc.wf(),
                acc.spec_modulus() == p,
                acc.spec_value() == dot(vec_vals(u@).take(j as int), vec_vals(x@).take(j as int), p),
            decreases n - j,
        {
            let term: FieldElement = u[j].mul(&x[j]);
            acc = acc.add(&term);
            proof {
                let uv = vec_vals(u@);
                let xv = vec_vals(x@);
                assert(uv.take(j + 1).drop_last() =~= uv.take(j as int));
                assert(xv.take(j + 1).drop_last() =~= xv.take(j as int));
                assert(uv.take(j + 1).last() == uv[j as int]);
            }
            j += 1;
        }
        proof {
            assert(vec_vals(u@).take(n as int) =~= vec_vals(u@));
            assert(vec_vals(x@).take(n as int) =~= vec_vals(x@));
        }
        acc
    }
}

/// Pointwise equality of two vectors over the same field: true iff the
/// lengths agree and every pair of entries is equal.
pub fn vectors_equal(u: &Vector, v: &Vector, cfg: &FqConfig) -> (r: bool)
    requires
        vec_wf(u@, cfg.spec_modulus()),
        vec_wf(v@, cfg.spec_modulus()),
    ensures
        r == (vec_vals(u@) == vec_vals(v@)),
{
    if u.len() != v.len() {
        proof {
            assert(vec_vals(u@).len() != vec_vals(v@).len());
        }
        return false;
    }
    let n: usize = u.len();
    let mut i: usize = 0;
    while i < n
        invariant
            0 <= i <= n,
            n as int == u@.len(),
            u@.len() == v@.len(),
            vec_wf(u@, cfg.spec_modulus()),
            vec_wf(v@, cfg.spec_modulus()),
            forall|k: int| 0 <= k < i ==> vec_vals(u@)[k] == vec_vals(v@)[k],
        decreases n - i,
    {
        if !u[i].equals(&v[i]) {
            proof {
                assert(vec_vals(u@)[i as int] != vec_vals(v@)[i as int]);
            }
            return false;
        }
        i += 1;
    }
    proof {
        assert(vec_vals(u@) =~= vec_vals(v@));
    }
    true
}

} // verus!
