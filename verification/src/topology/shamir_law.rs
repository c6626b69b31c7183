//! Reconstruction law of Shamir sharing: enough shares with distinct x-coordinates
//! of one split give the secret back. Proved by Lagrange interpolation over GF(256).
use vstd::prelude::*;

use crate::topology::shamir::{
    basis_den, basis_num, lagrange_acc, lemma_gf_inverse, lemma_gf_mul_associative, lemma_gf_mul_commutative,
    lemma_gf_mul_distributive, lemma_gf_mul_zero_one, shares_from_polys, spec_check_xs, spec_eval_poly,
    spec_gf_inv, spec_gf_mul, spec_reconstruct, SeedShare, ShamirError,
};

verus! {

/// Addition in GF(256) (xor) is a commutative group with zero as identity.
proof fn lemma_xor(a: u8, b: u8, c: u8)
    ensures
        a ^ 0u8 == a,
        0u8 ^ a == a,
        a ^ a == 0u8,
        a ^ b == b ^ a,
        (a ^ b) ^ c == a ^ (b ^ c),
        (a ^ b == 0u8) == (a == b),
{
    assert(a ^ 0u8 == a && 0u8 ^ a == a && a ^ a == 0u8 && a ^ b == b ^ a && (a ^ b) ^ c == a ^ (b ^ c)
        && ((a ^ b == 0u8) == (a == b))) by (bit_vector);
}

/// A product of non-zero elements is non-zero.
proof fn lemma_gf_no_zero_divisors(a: u8, b: u8)
    requires
        a != 0,
        b != 0,
    ensures
        spec_gf_mul(a, b) != 0,
{
    if spec_gf_mul(a, b) == 0 {
        lemma_gf_inverse(a);
        lemma_gf_mul_associative(spec_gf_inv(a), a, b);
        lemma_gf_mul_zero_one(b);
        lemma_gf_mul_zero_one(spec_gf_inv(a));
        assert(false);
    }
}

/// The inverse of a product is the product of the inverses.
proof fn lemma_gf_inv_mul(a: u8, b: u8)
    requires
        a != 0,
        b != 0,
    ensures
        spec_gf_inv(spec_gf_mul(a, b)) == spec_gf_mul(spec_gf_inv(a), spec_gf_inv(b)),
{
    let ab = spec_gf_mul(a, b);
    let ia = spec_gf_inv(a);
    let ib = spec_gf_inv(b);
    let y = spec_gf_mul(ia, ib);
    lemma_gf_no_zero_divisors(a, b);
    lemma_gf_inverse(a);
    lemma_gf_inverse(b);
    lemma_gf_inverse(ab);
    // (ab) y == 1
    lemma_gf_mul_associative(a, b, y);
    lemma_gf_mul_associative(b, ia, ib);
    lemma_gf_mul_commutative(b, ia);
    lemma_gf_mul_associative(ia, b, ib);
    lemma_gf_mul_zero_one(ia);
    lemma_gf_mul_associative(a, ia, spec_gf_mul(b, ib));
    lemma_gf_mul_zero_one(1);
    assert(spec_gf_mul(ab, y) == 1);
    // y == inv(ab) * (ab * y) == inv(ab)
    lemma_gf_mul_associative(spec_gf_inv(ab), ab, y);
    lemma_gf_mul_zero_one(y);
    lemma_gf_mul_zero_one(spec_gf_inv(ab));
}

/// The inverse of one is one.
proof fn lemma_gf_inv_one()
    ensures
        spec_gf_inv(1) == 1,
{
    lemma_gf_inverse(1);
    lemma_gf_mul_zero_one(spec_gf_inv(1));
}

/// A non-zero factor cancels: `d * u == d * v` gives `u == v`.
proof fn lemma_gf_cancel(d: u8, u: u8, v: u8)
    requires
        d != 0,
        spec_gf_mul(d, u) == spec_gf_mul(d, v),
    ensures
        u == v,
{
    lemma_gf_inverse(d);
    lemma_gf_mul_associative(spec_gf_inv(d), d, u);
    lemma_gf_mul_associative(spec_gf_inv(d), d, v);
    lemma_gf_mul_zero_one(u);
    lemma_gf_mul_zero_one(v);
}


/// Lagrange weight of share `i` at zero: `prod_{j != i} x_j / prod_{j != i} (x_i + x_j)`.
pub open spec fn lag_weight(s: Seq<SeedShare>, i: int) -> u8 {
    spec_gf_mul(basis_num(s, i, s.len()), spec_gf_inv(basis_den(s, i, s.len())))
}

/// `sum_{i < k} vs[i] * lag_weight(s, i)`, summed left to right.
pub open spec fn lag_sum(s: Seq<SeedShare>, vs: Seq<u8>, k: nat) -> u8
    decreases k,
{
    if k == 0 {
        0
    } else {
        lag_sum(s, vs, (k - 1) as nat) ^ spec_gf_mul(vs[k - 1], lag_weight(s, k - 1))
    }
}

/// The sum is additive in the values.
proof fn lemma_lag_sum_add(s: Seq<SeedShare>, us: Seq<u8>, vs: Seq<u8>, ws: Seq<u8>, k: nat)
    requires
        forall|i: int| 0 <= i < k ==> us[i] == vs[i] ^ ws[i],
    ensures
        lag_sum(s, us, k) == lag_sum(s, vs, k) ^ lag_sum(s, ws, k),
    decreases k,
{
    if k == 0 {
        lemma_xor(0, 0, 0);
    } else {
        lemma_lag_sum_add(s, us, vs, ws, (k - 1) as nat);
        let w = lag_weight(s, k - 1);
        lemma_gf_mul_distributive(w, vs[k - 1], ws[k - 1]);
        lemma_gf_mul_commutative(w, vs[k - 1]);
        lemma_gf_mul_commutative(w, ws[k - 1]);
        lemma_gf_mul_commutative(w, us[k - 1]);
        let a = lag_sum(s, vs, (k - 1) as nat);
        let b = lag_sum(s, ws, (k - 1) as nat);
        let c = spec_gf_mul(vs[k - 1], w);
        let d = spec_gf_mul(ws[k - 1], w);
        lemma_xor4(a, b, c, d);
    }
}

proof fn lemma_xor4(a: u8, b: u8, c: u8, d: u8)
    ensures
        (a ^ b) ^ (c ^ d) == (a ^ c) ^ (b ^ d),
{
    assert((a ^ b) ^ (c ^ d) == (a ^ c) ^ (b ^ d)) by (bit_vector);
}

/// The sum scales with the values.
proof fn lemma_lag_sum_scale(s: Seq<SeedShare>, us: Seq<u8>, vs: Seq<u8>, a: u8, k: nat)
    requires
        forall|i: int| 0 <= i < k ==> us[i] == spec_gf_mul(a, vs[i]),
    ensures
        lag_sum(s, us, k) == spec_gf_mul(a, lag_sum(s, vs, k)),
    decreases k,
{
    if k == 0 {
        lemma_gf_mul_zero_one(a);
    } else {
        lemma_lag_sum_scale(s, us, vs, a, (k - 1) as nat);
        let w = lag_weight(s, k - 1);
        lemma_gf_mul_associative(a, vs[k - 1], w);
        lemma_gf_mul_distributive(a, lag_sum(s, vs, (k - 1) as nat), spec_gf_mul(vs[k - 1], w));
    }
}

/// Products over the first `k` shares depend only on those shares.
proof fn lemma_basis_prefix(s: Seq<SeedShare>, t: Seq<SeedShare>, i: int, k: nat)
    requires
        k <= s.len(),
        k <= t.len(),
        0 <= i < s.len(),
        0 <= i < t.len(),
        s[i] == t[i],
        forall|j: int| 0 <= j < k ==> s[j] == t[j],
    ensures
        basis_num(s, i, k) == basis_num(t, i, k),
        basis_den(s, i, k) == basis_den(t, i, k),
    decreases k,
{
    if k > 0 {
        lemma_basis_prefix(s, t, i, (k - 1) as nat);
    }
}

/// Shares with non-zero, pairwise distinct x-coordinates.
pub open spec fn distinct_nonzero_xs(s: Seq<SeedShare>) -> bool {
    &&& forall|i: int| 0 <= i < s.len() ==> (#[trigger] s[i]).x != 0
    &&& forall|i: int, j: int| 0 <= i < s.len() && 0 <= j < s.len() && i != j ==> (#[trigger] s[i]).x != (#[trigger] s[j]).x
}

/// With distinct x-coordinates no denominator vanishes.
proof fn lemma_basis_den_nonzero(s: Seq<SeedShare>, i: int, k: nat)
    requires
        distinct_nonzero_xs(s),
        0 <= i < s.len(),
        k <= s.len(),
    ensures
        basis_den(s, i, k) != 0,
        basis_num(s, i, k) != 0,
    decreases k,
{
    if k == 0 {
    } else {
        lemma_basis_den_nonzero(s, i, (k - 1) as nat);
        if k - 1 != i {
            lemma_xor(s[i].x, s[k - 1].x, 0);
            lemma_gf_no_zero_divisors(basis_den(s, i, (k - 1) as nat), s[i].x ^ s[k - 1].x);
            lemma_gf_no_zero_divisors(basis_num(s, i, (k - 1) as nat), s[k - 1].x);
        }
    }
}


/// `(a b)(c e) == (a c)(b e)`.
proof fn lemma_gf_swap_middle(a: u8, b: u8, c: u8, e: u8)
    ensures
        spec_gf_mul(spec_gf_mul(a, b), spec_gf_mul(c, e)) == spec_gf_mul(spec_gf_mul(a, c), spec_gf_mul(b, e)),
{
    lemma_gf_mul_associative(a, b, spec_gf_mul(c, e));
    lemma_gf_mul_associative(b, c, e);
    lemma_gf_mul_commutative(b, c);
    lemma_gf_mul_associative(c, b, e);
    lemma_gf_mul_associative(a, c, spec_gf_mul(b, e));
}

/// The term of a share whose value carries the factor `d` that its weight divides out.
proof fn lemma_weight_rearrange(d: u8, w: u8, a: u8, n1: u8, id1: u8, idd: u8)
    requires
        spec_gf_mul(d, idd) == 1,
    ensures
        spec_gf_mul(spec_gf_mul(d, w), spec_gf_mul(spec_gf_mul(n1, a), spec_gf_mul(id1, idd)))
            == spec_gf_mul(a, spec_gf_mul(w, spec_gf_mul(n1, id1))),
{
    let wp = spec_gf_mul(n1, id1);
    let q = spec_gf_mul(a, idd);
    lemma_gf_swap_middle(n1, a, id1, idd);
    lemma_gf_mul_commutative(wp, q);
    lemma_gf_swap_middle(d, w, q, wp);
    lemma_gf_mul_commutative(a, idd);
    lemma_gf_mul_associative(d, idd, a);
    lemma_gf_mul_zero_one(a);
}

/// Removing the last share: values that vanish there and carry the factor
/// `x_i + x_last` elsewhere sum to `x_last` times the sum over the other shares.
proof fn lemma_lag_sum_drop_last(s: Seq<SeedShare>, vs: Seq<u8>, ws: Seq<u8>)
    requires
        s.len() >= 2,
        distinct_nonzero_xs(s),
        vs[s.len() - 1] == 0,
        forall|i: int| 0 <= i < s.len() - 1 ==> vs[i] == spec_gf_mul(s[i].x ^ s[s.len() - 1].x, #[trigger] ws[i]),
    ensures
        lag_sum(s, vs, s.len()) == spec_gf_mul(s[s.len() - 1].x, lag_sum(s.drop_last(), ws, (s.len() - 1) as nat)),
{
    let n = s.len();
    let m = (n - 1) as nat;
    let xm = s[m as int].x;
    let sp = s.drop_last();
    assert forall|k: nat| k <= m implies lag_sum(s, vs, k) == spec_gf_mul(xm, #[trigger] lag_sum(sp, ws, k)) by {
        lemma_drop_last_prefix(s, vs, ws, k);
    }
    let t = lag_weight(s, m as int);
    lemma_gf_mul_zero_one(t);
    lemma_xor(lag_sum(s, vs, m), 0, 0);
}

proof fn lemma_drop_last_prefix(s: Seq<SeedShare>, vs: Seq<u8>, ws: Seq<u8>, k: nat)
    requires
        s.len() >= 2,
        distinct_nonzero_xs(s),
        forall|i: int| 0 <= i < s.len() - 1 ==> vs[i] == spec_gf_mul(s[i].x ^ s[s.len() - 1].x, #[trigger] ws[i]),
        k <= s.len() - 1,
    ensures
        lag_sum(s, vs, k) == spec_gf_mul(s[s.len() - 1].x, lag_sum(s.drop_last(), ws, k)),
    decreases k,
{
    let n = s.len();
    let m = (n - 1) as nat;
    let xm = s[m as int].x;
    let sp = s.drop_last();
    if k == 0 {
        lemma_gf_mul_zero_one(xm);
    } else {
        lemma_drop_last_prefix(s, vs, ws, (k - 1) as nat);
        let i = k - 1;
        lemma_basis_prefix(s, sp, i, m);
        let n1 = basis_num(sp, i, m);
        let d1 = basis_den(sp, i, m);
        let d = s[i].x ^ xm;
        assert(basis_num(s, i, n) == spec_gf_mul(n1, xm));
        assert(basis_den(s, i, n) == spec_gf_mul(d1, d));
        lemma_basis_den_nonzero(sp, i, m);
        lemma_xor(s[i].x, xm, 0);
        lemma_gf_inv_mul(d1, d);
        lemma_gf_inverse(d);
        lemma_weight_rearrange(d, ws[i], xm, n1, spec_gf_inv(d1), spec_gf_inv(d));
        assert(spec_gf_mul(vs[i], lag_weight(s, i)) == spec_gf_mul(xm, spec_gf_mul(ws[i], lag_weight(sp, i))));
        lemma_gf_mul_distributive(xm, lag_sum(sp, ws, (k - 1) as nat), spec_gf_mul(ws[i], lag_weight(sp, i)));
    }
}

/// Products over the shares after the first, against those over all shares.
proof fn lemma_basis_drop_first(s: Seq<SeedShare>, i: int, k: nat)
    requires
        1 <= i < s.len(),
        1 <= k <= s.len(),
    ensures
        basis_num(s, i, k) == spec_gf_mul(s[0].x, basis_num(s.drop_first(), i - 1, (k - 1) as nat)),
        basis_den(s, i, k) == spec_gf_mul(s[i].x ^ s[0].x, basis_den(s.drop_first(), i - 1, (k - 1) as nat)),
    decreases k,
{
    let t = s.drop_first();
    if k == 1 {
        assert(basis_num(s, i, 0) == 1 && basis_den(s, i, 0) == 1);
        assert(basis_num(t, i - 1, 0) == 1 && basis_den(t, i - 1, 0) == 1);
        lemma_gf_mul_zero_one(s[0].x);
        lemma_gf_mul_zero_one(s[i].x ^ s[0].x);
    } else {
        lemma_basis_drop_first(s, i, (k - 1) as nat);
        if k - 1 == i {
            assert(basis_num(t, i - 1, (k - 1) as nat) == basis_num(t, i - 1, (k - 2) as nat));
            assert(basis_den(t, i - 1, (k - 1) as nat) == basis_den(t, i - 1, (k - 2) as nat));
        } else {
            assert(t[k - 2] == s[k - 1]);
            assert(t[i - 1] == s[i]);
            lemma_gf_mul_associative(s[0].x, basis_num(t, i - 1, (k - 2) as nat), s[k - 1].x);
            lemma_gf_mul_associative(s[i].x ^ s[0].x, basis_den(t, i - 1, (k - 2) as nat), s[i].x ^ s[k - 1].x);
        }
    }
}

/// Removing the first share: values that vanish there and carry the factor
/// `x_i + x_0` elsewhere sum to `x_0` times the sum over the other shares.
proof fn lemma_drop_first_prefix(s: Seq<SeedShare>, vs: Seq<u8>, ws: Seq<u8>, k: nat)
    requires
        s.len() >= 2,
        distinct_nonzero_xs(s),
        vs[0] == 0,
        forall|i: int| 1 <= i < s.len() ==> vs[i] == spec_gf_mul(s[i].x ^ s[0].x, #[trigger] ws[i - 1]),
        1 <= k <= s.len(),
    ensures
        lag_sum(s, vs, k) == spec_gf_mul(s[0].x, lag_sum(s.drop_first(), ws, (k - 1) as nat)),
    decreases k,
{
    let n = s.len();
    let x0 = s[0].x;
    let t = s.drop_first();
    if k == 1 {
        lemma_gf_mul_zero_one(lag_weight(s, 0));
        lemma_gf_mul_zero_one(x0);
        lemma_xor(0, 0, 0);
        assert(lag_sum(s, vs, 0) == 0);
        assert(lag_sum(t, ws, 0) == 0);
        assert(lag_sum(s, vs, 1) == 0u8 ^ spec_gf_mul(vs[0], lag_weight(s, 0)));
    } else {
        lemma_drop_first_prefix(s, vs, ws, (k - 1) as nat);
        let i = k - 1;
        lemma_basis_drop_first(s, i, n);
        let n1 = basis_num(t, i - 1, (n - 1) as nat);
        let d1 = basis_den(t, i - 1, (n - 1) as nat);
        let d = s[i].x ^ x0;
        assert(t[i - 1] == s[i]);
        assert(distinct_nonzero_xs(t)) by {
            assert forall|a: int, b: int| 0 <= a < t.len() && 0 <= b < t.len() && a != b implies (#[trigger] t[a]).x != (#[trigger] t[b]).x by {
                assert(t[a] == s[a + 1] && t[b] == s[b + 1]);
            }
            assert forall|a: int| 0 <= a < t.len() implies (#[trigger] t[a]).x != 0 by {
                assert(t[a] == s[a + 1]);
            }
        }
        lemma_basis_den_nonzero(t, i - 1, (n - 1) as nat);
        lemma_xor(s[i].x, x0, 0);
        lemma_gf_inv_mul(d, d1);
        lemma_gf_mul_commutative(spec_gf_inv(d), spec_gf_inv(d1));
        lemma_gf_mul_commutative(x0, n1);
        lemma_gf_inverse(d);
        lemma_weight_rearrange(d, ws[i - 1], x0, n1, spec_gf_inv(d1), spec_gf_inv(d));
        assert(spec_gf_mul(vs[i], lag_weight(s, i)) == spec_gf_mul(x0, spec_gf_mul(ws[i - 1], lag_weight(t, i - 1))));
        lemma_gf_mul_distributive(x0, lag_sum(t, ws, (k - 2) as nat), spec_gf_mul(ws[i - 1], lag_weight(t, i - 1)));
    }
}


/// Quotient of `c` by `(z + r)` by synthetic division.
pub open spec fn synth_quotient(c: Seq<u8>, r: u8) -> Seq<u8>
    decreases c.len(),
{
    if c.len() <= 1 {
        Seq::empty()
    } else {
        seq![spec_eval_poly(c.drop_first(), r)] + synth_quotient(c.drop_first(), r)
    }
}

/// `c(z) == (z + r) q(z) + c(r)` for the synthetic quotient `q`.
proof fn lemma_synth_quotient(c: Seq<u8>, r: u8, z: u8)
    requires
        c.len() >= 1,
    ensures
        synth_quotient(c, r).len() == c.len() - 1,
        spec_eval_poly(c, z) == spec_gf_mul(z ^ r, spec_eval_poly(synth_quotient(c, r), z)) ^ spec_eval_poly(c, r),
    decreases c.len(),
{
    let t = c.drop_first();
    if c.len() == 1 {
        assert(spec_eval_poly(t, z) == 0 && spec_eval_poly(t, r) == 0);
        assert(spec_eval_poly(Seq::<u8>::empty(), z) == 0);
        lemma_gf_mul_zero_one(z);
        lemma_gf_mul_zero_one(r);
        lemma_gf_mul_zero_one(z ^ r);
        lemma_xor(c[0], 0, 0);
    } else {
        lemma_synth_quotient(t, r, z);
        let qt = synth_quotient(t, r);
        let q = synth_quotient(c, r);
        let tr = spec_eval_poly(t, r);
        let e = spec_eval_poly(qt, z);
        let zr = z ^ r;
        assert(q.drop_first() =~= qt);
        assert(q[0] == tr);
        assert(spec_eval_poly(q, z) == spec_gf_mul(e, z) ^ tr);
        // c(z) = ((zr e) + tr) z + c0
        let p = spec_gf_mul(spec_gf_mul(zr, e), z);
        let qz = spec_gf_mul(tr, z);
        lemma_gf_mul_distributive(z, spec_gf_mul(zr, e), tr);
        lemma_gf_mul_commutative(z, spec_gf_mul(zr, e));
        lemma_gf_mul_commutative(z, tr);
        assert(spec_eval_poly(c, z) == (p ^ qz) ^ c[0]);
        // (zr)(e z + tr) = p + zr tr
        lemma_gf_mul_associative(zr, e, z);
        lemma_gf_mul_distributive(zr, spec_gf_mul(e, z), tr);
        let u = spec_gf_mul(zr, tr);
        let v = spec_gf_mul(tr, r);
        // tr z = tr (zr + r) = u + v
        lemma_xor(z, r, r);
        lemma_xor(r, r, 0);
        assert(zr ^ r == z);
        lemma_gf_mul_distributive(tr, zr, r);
        lemma_gf_mul_commutative(tr, zr);
        assert(qz == u ^ v);
        assert(spec_eval_poly(c, r) == v ^ c[0]);
        lemma_xor(p, u, v);
        lemma_xor(p ^ u, v, c[0]);
        lemma_xor(p, u ^ v, c[0]);
    }
}

/// Values of the polynomial `c` at the shares' x-coordinates.
pub open spec fn poly_values(s: Seq<SeedShare>, c: Seq<u8>) -> Seq<u8> {
    Seq::new(s.len(), |i: int| spec_eval_poly(c, s[i].x))
}

/// The constant one at every share.
pub open spec fn ones(n: nat) -> Seq<u8> {
    Seq::new(n, |i: int| 1u8)
}

/// Sums over values that agree on the first `k` shares agree.
proof fn lemma_lag_sum_ext(s: Seq<SeedShare>, vs: Seq<u8>, ws: Seq<u8>, k: nat)
    requires
        forall|i: int| 0 <= i < k ==> vs[i] == ws[i],
    ensures
        lag_sum(s, vs, k) == lag_sum(s, ws, k),
    decreases k,
{
    if k > 0 {
        lemma_lag_sum_ext(s, vs, ws, (k - 1) as nat);
    }
}

/// The Lagrange weights at zero of distinct non-zero nodes sum to one.
proof fn lemma_lag_sum_ones(s: Seq<SeedShare>)
    requires
        distinct_nonzero_xs(s),
        s.len() >= 1,
    ensures
        lag_sum(s, ones(s.len()), s.len()) == 1,
    decreases s.len(),
{
    let n = s.len();
    if n == 1 {
        assert(basis_num(s, 0, 1) == basis_num(s, 0, 0));
        assert(basis_den(s, 0, 1) == basis_den(s, 0, 0));
        lemma_gf_inv_one();
        lemma_gf_mul_zero_one(1);
        lemma_xor(1, 0, 0);
        assert(lag_sum(s, ones(1), 0) == 0);
    } else {
        let m = n - 1;
        let xm = s[m].x;
        let x0 = s[0].x;
        let sp = s.drop_last();
        let t = s.drop_first();
        assert(distinct_nonzero_xs(sp)) by {
            assert forall|a: int, b: int| 0 <= a < sp.len() && 0 <= b < sp.len() && a != b implies (#[trigger] sp[a]).x != (#[trigger] sp[b]).x by {
                assert(sp[a] == s[a] && sp[b] == s[b]);
            }
        }
        assert(distinct_nonzero_xs(t)) by {
            assert forall|a: int, b: int| 0 <= a < t.len() && 0 <= b < t.len() && a != b implies (#[trigger] t[a]).x != (#[trigger] t[b]).x by {
                assert(t[a] == s[a + 1] && t[b] == s[b + 1]);
            }
            assert forall|a: int| 0 <= a < t.len() implies (#[trigger] t[a]).x != 0 by {
                assert(t[a] == s[a + 1]);
            }
        }
        lemma_lag_sum_ones(sp);
        lemma_lag_sum_ones(t);
        let hv = Seq::new(n, |i: int| s[i].x ^ xm);
        let hf = Seq::new(n, |i: int| s[i].x ^ x0);
        let ws = ones((n - 1) as nat);
        assert forall|i: int| 0 <= i < n - 1 implies hv[i] == spec_gf_mul(s[i].x ^ s[n - 1].x, #[trigger] ws[i]) by {
            lemma_gf_mul_zero_one(s[i].x ^ xm);
        }
        lemma_xor(xm, xm, 0);
        lemma_lag_sum_drop_last(s, hv, ws);
        lemma_lag_sum_ext(sp, ws, ones(sp.len()), (n - 1) as nat);
        lemma_gf_mul_zero_one(xm);
        assert(lag_sum(s, hv, n) == xm);
        assert forall|i: int| 1 <= i < n implies hf[i] == spec_gf_mul(s[i].x ^ s[0].x, #[trigger] ws[i - 1]) by {
            lemma_gf_mul_zero_one(s[i].x ^ x0);
        }
        lemma_xor(x0, x0, 0);
        lemma_drop_first_prefix(s, hf, ws, n);
        lemma_lag_sum_ext(t, ws, ones(t.len()), (n - 1) as nat);
        lemma_gf_mul_zero_one(x0);
        assert(lag_sum(s, hf, n) == x0);
        let dd = xm ^ x0;
        let hs = Seq::new(n, |i: int| hv[i] ^ hf[i]);
        lemma_lag_sum_add(s, hs, hv, hf, n);
        assert forall|i: int| 0 <= i < n implies hs[i] == spec_gf_mul(dd, #[trigger] ones(n)[i]) by {
            let xi = s[i].x;
            assert((xi ^ xm) ^ (xi ^ x0) == xm ^ x0) by (bit_vector);
            lemma_gf_mul_zero_one(dd);
        }
        lemma_lag_sum_scale(s, hs, ones(n), dd, n);
        lemma_xor(xm, x0, 0);
        lemma_gf_mul_zero_one(dd);
        lemma_gf_cancel(dd, lag_sum(s, ones(n), n), 1);
    }
}


/// Lagrange interpolation at zero over distinct non-zero nodes recovers the
/// constant term of every polynomial with at most as many coefficients as nodes.
pub proof fn lemma_lag_sum_poly(s: Seq<SeedShare>, c: Seq<u8>)
    requires
        distinct_nonzero_xs(s),
        c.len() <= s.len(),
    ensures
        lag_sum(s, poly_values(s, c), s.len()) == spec_eval_poly(c, 0),
    decreases s.len(),
{
    let n = s.len();
    let pv = poly_values(s, c);
    if c.len() == 0 {
        assert forall|i: int| 0 <= i < n implies pv[i] == spec_gf_mul(0, #[trigger] ones(n)[i]) by {
            lemma_gf_mul_zero_one(1);
        }
        lemma_lag_sum_scale(s, pv, ones(n), 0, n);
        lemma_gf_mul_zero_one(lag_sum(s, ones(n), n));
    } else {
        let m = n - 1;
        let xm = s[m].x;
        let q = synth_quotient(c, xm);
        let cm = spec_eval_poly(c, xm);
        lemma_synth_quotient(c, xm, 0);
        let gv = Seq::new(n, |i: int| spec_gf_mul(s[i].x ^ xm, spec_eval_poly(q, s[i].x)));
        let cv = Seq::new(n, |i: int| spec_gf_mul(cm, ones(n)[i]));
        assert forall|i: int| 0 <= i < n implies pv[i] == gv[i] ^ cv[i] by {
            lemma_synth_quotient(c, xm, s[i].x);
            lemma_gf_mul_zero_one(cm);
        }
        lemma_lag_sum_add(s, pv, gv, cv, n);
        lemma_lag_sum_scale(s, cv, ones(n), cm, n);
        lemma_lag_sum_ones(s);
        lemma_gf_mul_zero_one(cm);
        lemma_xor(xm, 0, 0);
        if n == 1 {
            assert(q.len() == 0);
            assert(spec_eval_poly(q, s[0].x) == 0);
            assert(spec_eval_poly(q, 0) == 0);
            lemma_gf_mul_zero_one(s[0].x ^ xm);
            lemma_gf_mul_zero_one(xm);
            lemma_gf_mul_zero_one(lag_weight(s, 0));
            assert(gv[0] == 0);
            assert(lag_sum(s, gv, 0) == 0);
            lemma_xor(0, 0, 0);
            assert(lag_sum(s, gv, 1) == 0);
        } else {
            let sp = s.drop_last();
            assert(distinct_nonzero_xs(sp)) by {
                assert forall|a: int, b: int| 0 <= a < sp.len() && 0 <= b < sp.len() && a != b implies (#[trigger] sp[a]).x != (#[trigger] sp[b]).x by {
                    assert(sp[a] == s[a] && sp[b] == s[b]);
                }
            }
            let ws = poly_values(sp, q);
            lemma_xor(xm, xm, 0);
            lemma_gf_mul_zero_one(spec_eval_poly(q, xm));
            assert(gv[m] == 0);
            assert forall|i: int| 0 <= i < n - 1 implies gv[i] == spec_gf_mul(s[i].x ^ s[n - 1].x, #[trigger] ws[i]) by {
                assert(sp[i] == s[i]);
            }
            lemma_lag_sum_drop_last(s, gv, ws);
            lemma_lag_sum_poly(sp, q);
        }
    }
}

/// Interpolation succeeds over distinct non-zero nodes and is the weighted sum.
proof fn lemma_lagrange_acc_sum(s: Seq<SeedShare>, b: int, k: nat)
    requires
        distinct_nonzero_xs(s),
        k <= s.len(),
    ensures
        lagrange_acc(s, b, k) == Some(lag_sum(s, Seq::new(s.len(), |i: int| s[i].y@[b]), k)),
    decreases k,
{
    if k > 0 {
        lemma_lagrange_acc_sum(s, b, (k - 1) as nat);
        lemma_basis_den_nonzero(s, k - 1, s.len());
    }
}

/// Distinct non-zero x-coordinates pass the coordinate check.
proof fn lemma_check_xs_none(s: Seq<SeedShare>, k: nat)
    requires
        distinct_nonzero_xs(s),
        k <= s.len(),
    ensures
        spec_check_xs(s, k) is None,
    decreases k,
{
    if k > 0 {
        lemma_check_xs_none(s, (k - 1) as nat);
        if exists|j: int| 0 <= j < k - 1 && #[trigger] s[j].x == s[k - 1].x {
            let j = choose|j: int| 0 <= j < k - 1 && #[trigger] s[j].x == s[k - 1].x;
            assert(s[j].x != s[k - 1].x);
        }
    }
}

/// The reconstruction law: at least `threshold` distinct-x shares of one split
/// (shares evaluating, byte by byte, polynomials of `threshold` coefficients whose
/// constant terms are the secret, at non-zero x-coordinates), in any order,
/// reconstruct the secret.
pub proof fn lemma_reconstruct_split(
    secret: Seq<u8>,
    threshold: nat,
    shares: Seq<SeedShare>,
    polys: Seq<Seq<u8>>,
    sub: Seq<SeedShare>,
)
    requires
        secret.len() == 32,
        shares_from_polys(secret, threshold, shares, polys),
        threshold >= 1,
        forall|i: int| 0 <= i < shares.len() ==> (#[trigger] shares[i]).x != 0,
        sub.len() >= threshold,
        forall|i: int| 0 <= i < sub.len() ==> shares.contains(#[trigger] sub[i]),
        forall|i: int, j: int| 0 <= i < j < sub.len() ==> (#[trigger] sub[i]).x != (#[trigger] sub[j]).x,
    ensures
        spec_reconstruct(sub) == Ok::<Seq<u8>, ShamirError>(secret),
{
    let n = sub.len();
    assert(distinct_nonzero_xs(sub)) by {
        assert forall|i: int| 0 <= i < n implies (#[trigger] sub[i]).x != 0 by {
            let j = choose|j: int| 0 <= j < shares.len() && shares[j] == sub[i];
            assert(shares[j].x != 0);
        }
        assert forall|i: int, j: int| 0 <= i < n && 0 <= j < n && i != j implies (#[trigger] sub[i]).x != (#[trigger] sub[j]).x by {
            if i < j {
            } else {
            }
        }
    }
    lemma_check_xs_none(sub, n);
    assert forall|b: int| 0 <= b < 32 implies #[trigger] lagrange_acc(sub, b, n) == Some(secret[b]) by {
        let ys = Seq::new(n, |i: int| sub[i].y@[b]);
        lemma_lagrange_acc_sum(sub, b, n);
        let c = polys[b];
        assert forall|i: int| 0 <= i < n implies ys[i] == #[trigger] poly_values(sub, c)[i] by {
            let j = choose|j: int| 0 <= j < shares.len() && shares[j] == sub[i];
            assert(shares[j].y@[b] == spec_eval_poly(polys[b], shares[j].x));
        }
        lemma_lag_sum_ext(sub, ys, poly_values(sub, c), n);
        lemma_lag_sum_poly(sub, c);
        assert(spec_eval_poly(c.drop_first(), 0) == spec_eval_poly(c.drop_first(), 0));
        lemma_gf_mul_zero_one(spec_eval_poly(c.drop_first(), 0));
        lemma_xor(c[0], 0, 0);
    }
    assert(lagrange_acc(sub, 0, n) is Some);
    assert(Seq::new(32, |b: int| lagrange_acc(sub, b, n)->0) =~= secret);
}


/// The law in the form `split_seed` states its output: shares `x = 1..=n`
/// evaluating polynomials whose constant terms are the secret.
pub proof fn lemma_split_seed_reconstructs(secret: Seq<u8>, threshold: nat, shares: Seq<SeedShare>, sub: Seq<SeedShare>)
    requires
        secret.len() == 32,
        threshold >= 1,
        forall|i: int| 0 <= i < shares.len() ==> (#[trigger] shares[i]).x == i + 1,
        exists|polys: Seq<Seq<u8>>| shares_from_polys(secret, threshold, shares, polys),
        sub.len() >= threshold,
        forall|i: int| 0 <= i < sub.len() ==> shares.contains(#[trigger] sub[i]),
        forall|i: int, j: int| 0 <= i < j < sub.len() ==> (#[trigger] sub[i]).x != (#[trigger] sub[j]).x,
    ensures
        spec_reconstruct(sub) == Ok::<Seq<u8>, ShamirError>(secret),
{
    let polys = choose|polys: Seq<Seq<u8>>| shares_from_polys(secret, threshold, shares, polys);
    lemma_reconstruct_split(secret, threshold, shares, polys, sub);
}

} // verus!
