//! The completeness theorem of the protocol: when C really is the product
//! A·B in the field, the two sides of Freivalds' comparison are equal for
//! every probe vector, so the verifier never rejects a correct product,
//! whatever r was sampled.
//!
//! The proofs relate the step-by-step reduced operations (`dot`,
//! `mat_vec`) to the plain integer dot-product `idot`, exchange the order
//! of summation over the integers, and carry the equality back modulo p.

use vstd::prelude::*;
use vstd::arithmetic::div_mod::lemma_add_mod_noop;
use vstd::arithmetic::div_mod::lemma_mod_twice;
use vstd::arithmetic::div_mod::lemma_mul_mod_noop_right;
use vstd::arithmetic::mul::lemma_mul_is_distributive_add;
use vstd::arithmetic::mul::lemma_mul_is_associative;
use vstd::arithmetic::mul::lemma_mul_is_commutative;
use crate::matrix::col;
use crate::matrix::dot;
use crate::matrix::idot;
use crate::matrix::is_grid;
use crate::matrix::mat_mul;
use crate::matrix::mat_vec;
use crate::freivalds::freivalds_accepts;
use crate::freivalds::power_seq;

verus! {

/// The reduced dot-product is the plain integer dot-product, reduced once.
pub proof fn lemma_dot_is_idot_mod(u: Seq<int>, v: Seq<int>, p: int)
    requires
        p >= 1,
        u.len() == v.len(),
    ensures
        dot(u, v, p) == idot(u, v) % p,
    decreases u.len(),
{
    if u.len() == 0 {
        assert(dot(u, v, p) == 0);
        assert(idot(u, v) == 0);
        assert(0int % p == 0);
    } else {
        let d1 = dot(u.drop_last(), v.drop_last(), p);
        let i1 = idot(u.drop_last(), v.drop_last());
        let t = u.last() * v.last();
        lemma_dot_is_idot_mod(u.drop_last(), v.drop_last(), p);
        assert(d1 == i1 % p);
        assert(dot(u, v, p) == (d1 + t % p) % p);
        assert(idot(u, v) == i1 + t);
        lemma_mod_twice(t, p);
        lemma_add_mod_noop(i1, t, p);
        assert(((i1 % p) + (t % p)) % p == (i1 + t) % p);
    }
}

/// A dot-product against an all-zero vector vanishes.
proof fn lemma_idot_zero_right(u: Seq<int>, v: Seq<int>)
    requires
        u.len() == v.len(),
        forall|k: int| 0 <= k < v.len() ==> v[k] == 0,
    ensures
        idot(u, v) == 0,
    decreases u.len(),
{
    if u.len() == 0 {
    } else {
        lemma_idot_zero_right(u.drop_last(), v.drop_last());
    }
}

/// Replacing the right-hand vector by one congruent to it pointwise
/// modulo p does not change the dot-product modulo p.
proof fn lemma_idot_congruent_right(u: Seq<int>, v: Seq<int>, w: Seq<int>, p: int)
    requires
        p >= 1,
        u.len() == v.len(),
        u.len() == w.len(),
        forall|k: int| 0 <= k < v.len() ==> v[k] % p == w[k] % p,
    ensures
        idot(u, v) % p == idot(u, w) % p,
    decreases u.len(),
{
    if u.len() == 0 {
    } else {
        lemma_idot_congruent_right(u.drop_last(), v.drop_last(), w.drop_last(), p);
        let ul = u.last();
        let iv = idot(u.drop_last(), v.drop_last());
        let iw = idot(u.drop_last(), w.drop_last());
        lemma_mul_mod_noop_right(ul, v.last(), p);
        lemma_mul_mod_noop_right(ul, w.last(), p);
        assert(v.last() % p == w.last() % p);
        assert((ul * v.last()) % p == (ul * w.last()) % p);
        lemma_add_mod_noop(iv, ul * v.last(), p);
        lemma_add_mod_noop(iw, ul * w.last(), p);
    }
}

/// The integer dot-product is symmetric.
proof fn lemma_idot_comm(u: Seq<int>, v: Seq<int>)
    requires
        u.len() == v.len(),
    ensures
        idot(u, v) == idot(v, u),
    decreases u.len(),
{
    if u.len() == 0 {
    } else {
        lemma_idot_comm(u.drop_last(), v.drop_last());
        lemma_mul_is_commutative(u.last(), v.last());
    }
}

/// Pointwise sum of two vectors.
spec fn seq_add(v: Seq<int>, w: Seq<int>) -> Seq<int> {
    Seq::new(v.len(), |i: int| v[i] + w[i])
}

/// A vector scaled by a constant.
spec fn seq_scale(c: int, v: Seq<int>) -> Seq<int> {
    Seq::new(v.len(), |i: int| c * v[i])
}

/// The dot-product distributes over pointwise addition on the right.
proof fn lemma_idot_add_right(u: Seq<int>, v: Seq<int>, w: Seq<int>)
    requires
        u.len() == v.len(),
        u.len() == w.len(),
    ensures
        idot(u, seq_add(v, w)) == idot(u, v) + idot(u, w),
    decreases u.len(),
{
    if u.len() == 0 {
    } else {
        assert(seq_add(v, w).drop_last() =~= seq_add(v.drop_last(), w.drop_last()));
        assert(seq_add(v, w).last() == v.last() + w.last());
        lemma_idot_add_right(u.drop_last(), v.drop_last(), w.drop_last());
        lemma_mul_is_distributive_add(u.last(), v.last(), w.last());
    }
}

/// A constant factor on the right-hand vector comes out of the
/// dot-product.
proof fn lemma_idot_scale_right(u: Seq<int>, c: int, v: Seq<int>)
    requires
        u.len() == v.len(),
    ensures
        idot(u, seq_scale(c, v)) == c * idot(u, v),
    decreases u.len(),
{
    if u.len() == 0 {
    } else {
        assert(seq_scale(c, v).drop_last() =~= seq_scale(c, v.drop_last()));
        assert(seq_scale(c, v).last() == c * v.last());
        lemma_idot_scale_right(u.drop_last(), c, v.drop_last());
        let ul = u.last();
        let vl = v.last();
        lemma_mul_is_associative(ul, c, vl);
        lemma_mul_is_commutative(ul, c);
        lemma_mul_is_associative(c, ul, vl);
        assert(ul * (c * vl) == c * (ul * vl));
        lemma_mul_is_distributive_add(c, idot(u.drop_last(), v.drop_last()), ul * vl);
    }
}

/// Exchange of summation over the integers: summing u against the
/// row-by-row products B·x equals summing x against the products of u
/// with the columns of B.
proof fn lemma_idot_exchange(u: Seq<int>, b: Seq<Seq<int>>, x: Seq<int>)
    requires
        u.len() == b.len(),
        forall|j: int| 0 <= j < b.len() ==> (#[trigger] b[j]).len() == x.len(),
    ensures
        idot(u, Seq::new(b.len(), |j: int| idot(b[j], x))) == idot(
            x,
            Seq::new(x.len(), |k: int| idot(u, col(b, k))),
        ),
    decreases b.len(),
{
    let w = Seq::new(b.len(), |j: int| idot(b[j], x));
    let rr = Seq::new(x.len(), |k: int| idot(u, col(b, k)));
    if b.len() == 0 {
        assert forall|k: int| 0 <= k < rr.len() implies rr[k] == 0 by {
            assert(col(b, k).len() == 0);
        }
        lemma_idot_zero_right(x, rr);
    } else {
        let u1 = u.drop_last();
        let b1 = b.drop_last();
        let ul = u.last();
        let brow = b.last();
        let w1 = Seq::new(b1.len(), |j: int| idot(b1[j], x));
        let rr1 = Seq::new(x.len(), |k: int| idot(u1, col(b1, k)));
        lemma_idot_exchange(u1, b1, x);
        // The left side peels its last term off.
        assert(w.drop_last() =~= w1);
        assert(w.last() == idot(brow, x));
        assert(idot(u, w) == idot(u1, w1) + ul * idot(brow, x));
        // The right side splits pointwise: each entry of rr is the matching
        // entry of rr1 plus ul times the last row.
        assert forall|k: int| 0 <= k < x.len() implies rr[k] == rr1[k] + ul * brow[k] by {
            assert(col(b, k).drop_last() =~= col(b1, k));
            assert(col(b, k).last() == brow[k]);
        }
        assert(rr =~= seq_add(rr1, seq_scale(ul, brow)));
        lemma_idot_add_right(x, rr1, seq_scale(ul, brow));
        lemma_idot_scale_right(x, ul, brow);
        lemma_idot_comm(x, brow);
        assert(idot(x, rr) == idot(x, rr1) + ul * idot(brow, x));
    }
}

/// One row of the completeness argument: pairing a row u with the reduced
/// products B·x equals pairing the reduced products of u with B's columns
/// against x.
proof fn lemma_row_complete(u: Seq<int>, b: Seq<Seq<int>>, x: Seq<int>, p: int)
    requires
        p >= 1,
        u.len() == b.len(),
        forall|j: int| 0 <= j < b.len() ==> (#[trigger] b[j]).len() == x.len(),
    ensures
        dot(u, mat_vec(b, x, p), p) == dot(Seq::new(x.len(), |k: int| dot(u, col(b, k), p)), x, p),
{
    let w_red = mat_vec(b, x, p);
    let w_raw = Seq::new(b.len(), |j: int| idot(b[j], x));
    let r_red = Seq::new(x.len(), |k: int| dot(u, col(b, k), p));
    let r_raw = Seq::new(x.len(), |k: int| idot(u, col(b, k)));
    lemma_dot_is_idot_mod(u, w_red, p);
    assert forall|j: int| 0 <= j < b.len() implies w_red[j] % p == w_raw[j] % p by {
        lemma_dot_is_idot_mod(b[j], x, p);
        lemma_mod_twice(idot(b[j], x), p);
    }
    lemma_idot_congruent_right(u, w_red, w_raw, p);
    lemma_idot_exchange(u, b, x);
    assert forall|k: int| 0 <= k < x.len() implies r_red[k] % p == r_raw[k] % p by {
        assert(col(b, k).len() == b.len());
        lemma_dot_is_idot_mod(u, col(b, k), p);
        lemma_mod_twice(idot(u, col(b, k)), p);
    }
    lemma_idot_congruent_right(x, r_red, r_raw, p);
    lemma_idot_comm(x, r_red);
    lemma_dot_is_idot_mod(r_red, x, p);
    assert(dot(u, w_red, p) == idot(u, w_red) % p);
    assert(idot(u, w_red) % p == idot(u, w_raw) % p);
    assert(idot(u, w_raw) == idot(x, r_raw));
    assert(idot(x, r_raw) % p == idot(x, r_red) % p);
    assert(idot(x, r_red) == idot(r_red, x));
    assert(dot(r_red, x, p) == idot(r_red, x) % p);
}

/// Law: multiplying by A after B equals multiplying by the product A·B.
/// For square matrices a, b of dimension n over the field of modulus p and
/// every vector x of length n, A·(B·x) == (A·B)·x, all products reduced
/// modulo p.
pub proof fn lemma_mat_vec_assoc(a: Seq<Seq<int>>, b: Seq<Seq<int>>, x: Seq<int>, p: int, n: nat)
    requires
        p >= 1,
        is_grid(a, n, n),
        is_grid(b, n, n),
        x.len() == n,
    ensures
        mat_vec(a, mat_vec(b, x, p), p) == mat_vec(mat_mul(a, b, p), x, p),
{
    let lhs = mat_vec(a, mat_vec(b, x, p), p);
    let rhs = mat_vec(mat_mul(a, b, p), x, p);
    assert forall|i: int| 0 <= i < n implies lhs[i] == rhs[i] by {
        lemma_row_complete(a[i], b, x, p);
        assert(mat_mul(a, b, p)[i] =~= Seq::new(x.len(), |k: int| dot(a[i], col(b, k), p)));
    }
    assert(lhs =~= rhs);
}

/// Law (no false rejects): when c is the exact product a·b in the field,
/// Freivalds' comparison accepts for every probe value r — the verifier
/// returns true with probability 1 over the draw of r.
pub proof fn lemma_no_false_reject(a: Seq<Seq<int>>, b: Seq<Seq<int>>, r: int, p: int, n: nat)
    requires
        p >= 1,
        is_grid(a, n, n),
        is_grid(b, n, n),
    ensures
        freivalds_accepts(a, b, mat_mul(a, b, p), r, p),
{
    let x = power_seq(r, n, p);
    assert(x.len() == n);
    lemma_mat_vec_assoc(a, b, x, p, n);
    assert(mat_mul(a, b, p).len() == n);
}

/// Law (rejections are sound): the check errs in one direction only.
/// Whenever Freivalds' comparison rejects, for whatever probe value r,
/// the claimed product really is wrong: c differs from a·b in the field.
pub proof fn lemma_reject_means_wrong(
    a: Seq<Seq<int>>,
    b: Seq<Seq<int>>,
    c: Seq<Seq<int>>,
    r: int,
    p: int,
    n: nat,
)
    requires
        p >= 1,
        is_grid(a, n, n),
        is_grid(b, n, n),
        !freivalds_accepts(a, b, c, r, p),
    ensures
        c != mat_mul(a, b, p),
{
    if c == mat_mul(a, b, p) {
        lemma_no_false_reject(a, b, r, p, n);
    }
}

} // verus!
