//! GF(256) Shamir secret sharing for 32-byte ceremony seeds.
//!
//! Each secret byte is shared independently over the AES field GF(2^8)
//! (`x^8 + x^4 + x^3 + x + 1`) with the same share x-coordinates.
use vstd::prelude::*;
use vstd::utf8::{encode_utf8, is_ascii_chars, is_ascii_chars_encode_utf8};

use crate::rng::ByteSource;
use crate::text::{is_white_space, lemma_trimmed_unchanged, owned, str_trim, string_from_ascii, trimmed};
use crate::wire::{ascii_chars, hex_digit, decimal, extend_bytes, lemma_decimal_ascii, spec_decimal, spec_hex, push_hex, lemma_hex_len, nibble, spec_nibble};

verus! {

/// One Shamir share of a 32-byte secret: `x` in `1..=255` and 32 field elements `y`.
#[derive(Clone, Debug, PartialEq, Eq)]
pub struct SeedShare {
    pub x: u8,
    pub y: [u8; 32],
}

#[derive(Debug, Clone, PartialEq, Eq)]
pub enum ShamirError {
    BadParams(&'static str),
    TooFewShares,
    DuplicateX,
    InvalidX,
}

/// Low byte of the AES reduction polynomial `0x11b`.
pub const IRRED_LOW: u8 = 0x1b;

/// One doubling step of the multiplicand (multiply by `x`, reduce).
pub open spec fn gf_double(a: u8) -> u8 {
    if a & 0x80u8 != 0 { (a << 1u8) ^ IRRED_LOW } else { a << 1u8 }
}

/// `k` remaining rounds of shift-and-add multiplication.
pub open spec fn gf_mul_rounds(a: u8, b: u8, p: u8, k: nat) -> u8
    decreases k,
{
    if k == 0 {
        p
    } else {
        gf_mul_rounds(gf_double(a), b >> 1u8, if b & 1u8 != 0 { p ^ a } else { p }, (k - 1) as nat)
    }
}

/// Product in GF(256).
pub open spec fn spec_gf_mul(a: u8, b: u8) -> u8 {
    gf_mul_rounds(a, b, 0, 8)
}

/// Square-and-multiply: `acc * x^e`.
pub open spec fn gf_pow_rounds(x: u8, acc: u8, e: nat) -> u8
    decreases e,
{
    if e == 0 {
        acc
    } else {
        gf_pow_rounds(spec_gf_mul(x, x), if e % 2 == 1 { spec_gf_mul(acc, x) } else { acc }, e / 2)
    }
}

/// Inverse in GF(256): `a^254`.
pub open spec fn spec_gf_inv(a: u8) -> u8 {
    gf_pow_rounds(a, 1, 254)
}

/// The product written out: the doublings of `a` picked out by the bits of `b`.
spec fn gf_pick(a: u8, b: u8, k: u8) -> u8 {
    if (b >> k) & 1u8 != 0 { a } else { 0u8 }
}

spec fn gf_mul_bits(a: u8, b: u8) -> u8 {
    let a1 = gf_double(a);
    let a2 = gf_double(a1);
    let a3 = gf_double(a2);
    let a4 = gf_double(a3);
    let a5 = gf_double(a4);
    let a6 = gf_double(a5);
    let a7 = gf_double(a6);
    gf_pick(a, b, 0) ^ gf_pick(a1, b, 1) ^ gf_pick(a2, b, 2) ^ gf_pick(a3, b, 3) ^ gf_pick(a4, b, 4)
        ^ gf_pick(a5, b, 5) ^ gf_pick(a6, b, 6) ^ gf_pick(a7, b, 7)
}

proof fn lemma_gf_mul_bits(a: u8, b: u8)
    ensures
        spec_gf_mul(a, b) == gf_mul_bits(a, b),
{
    reveal_with_fuel(gf_mul_rounds, 9);
    let a1 = gf_double(a);
    let a2 = gf_double(a1);
    let a3 = gf_double(a2);
    let a4 = gf_double(a3);
    let a5 = gf_double(a4);
    let a6 = gf_double(a5);
    let a7 = gf_double(a6);
    let b1 = b >> 1u8;
    let b2 = b1 >> 1u8;
    let b3 = b2 >> 1u8;
    let b4 = b3 >> 1u8;
    let b5 = b4 >> 1u8;
    let b6 = b5 >> 1u8;
    let b7 = b6 >> 1u8;
    let p1 = if b & 1u8 != 0 { 0u8 ^ a } else { 0u8 };
    let p2 = if b1 & 1u8 != 0 { p1 ^ a1 } else { p1 };
    let p3 = if b2 & 1u8 != 0 { p2 ^ a2 } else { p2 };
    let p4 = if b3 & 1u8 != 0 { p3 ^ a3 } else { p3 };
    let p5 = if b4 & 1u8 != 0 { p4 ^ a4 } else { p4 };
    let p6 = if b5 & 1u8 != 0 { p5 ^ a5 } else { p5 };
    let p7 = if b6 & 1u8 != 0 { p6 ^ a6 } else { p6 };
    let p8 = if b7 & 1u8 != 0 { p7 ^ a7 } else { p7 };
    assert(spec_gf_mul(a, b) == p8);
    assert(p8 == gf_mul_bits(a, b)) by (bit_vector)
        requires
            a1 == gf_double(a), a2 == gf_double(a1), a3 == gf_double(a2), a4 == gf_double(a3),
            a5 == gf_double(a4), a6 == gf_double(a5), a7 == gf_double(a6),
            b1 == b >> 1u8, b2 == b1 >> 1u8, b3 == b2 >> 1u8, b4 == b3 >> 1u8, b5 == b4 >> 1u8,
            b6 == b5 >> 1u8, b7 == b6 >> 1u8,
            p1 == if b & 1u8 != 0 { 0u8 ^ a } else { 0u8 },
            p2 == if b1 & 1u8 != 0 { p1 ^ a1 } else { p1 },
            p3 == if b2 & 1u8 != 0 { p2 ^ a2 } else { p2 },
            p4 == if b3 & 1u8 != 0 { p3 ^ a3 } else { p3 },
            p5 == if b4 & 1u8 != 0 { p4 ^ a4 } else { p4 },
            p6 == if b5 & 1u8 != 0 { p5 ^ a5 } else { p5 },
            p7 == if b6 & 1u8 != 0 { p6 ^ a6 } else { p6 },
            p8 == if b7 & 1u8 != 0 { p7 ^ a7 } else { p7 };
}

/// GF(256) multiplication is commutative.
#[verifier::rlimit(100)]
pub proof fn lemma_gf_mul_commutative(a: u8, b: u8)
    ensures
        spec_gf_mul(a, b) == spec_gf_mul(b, a),
{
    lemma_gf_mul_bits(a, b);
    lemma_gf_mul_bits(b, a);
    assert(gf_mul_bits(a, b) == gf_mul_bits(b, a)) by (bit_vector);
}

/// GF(256) multiplication distributes over addition (xor).
pub proof fn lemma_gf_mul_distributive(a: u8, b: u8, c: u8)
    ensures
        spec_gf_mul(a, b ^ c) == spec_gf_mul(a, b) ^ spec_gf_mul(a, c),
        spec_gf_mul(b ^ c, a) == spec_gf_mul(b, a) ^ spec_gf_mul(c, a),
{
    lemma_gf_mul_bits(a, b ^ c);
    lemma_gf_mul_bits(a, b);
    lemma_gf_mul_bits(a, c);
    assert(gf_mul_bits(a, b ^ c) == gf_mul_bits(a, b) ^ gf_mul_bits(a, c)) by (bit_vector);
    lemma_gf_mul_commutative(a, b ^ c);
    lemma_gf_mul_commutative(a, b);
    lemma_gf_mul_commutative(a, c);
}

/// Zero annihilates and one is neutral in GF(256).
pub proof fn lemma_gf_mul_zero_one(a: u8)
    ensures
        spec_gf_mul(a, 0) == 0,
        spec_gf_mul(0, a) == 0,
        spec_gf_mul(a, 1) == a,
        spec_gf_mul(1, a) == a,
{
    lemma_gf_mul_bits(a, 0);
    lemma_gf_mul_bits(a, 1);
    assert(gf_mul_bits(a, 0) == 0 && gf_mul_bits(a, 1) == a) by (bit_vector);
    lemma_gf_mul_commutative(a, 0);
    lemma_gf_mul_commutative(a, 1);
}

/// Multiplying by `x` (the element 2) commutes with a product.
#[verifier::rlimit(100)]
proof fn lemma_gf_mul_assoc_two(x: u8, y: u8)
    ensures
        spec_gf_mul(spec_gf_mul(x, y), 2) == spec_gf_mul(x, spec_gf_mul(y, 2)),
{
    let xy = spec_gf_mul(x, y);
    let y2 = spec_gf_mul(y, 2);
    lemma_gf_mul_bits(x, y);
    lemma_gf_mul_bits(y, 2);
    lemma_gf_mul_bits(xy, 2);
    lemma_gf_mul_bits(x, y2);
    assert(gf_mul_bits(xy, 2) == gf_mul_bits(x, y2)) by (bit_vector)
        requires
            xy == gf_mul_bits(x, y),
            y2 == gf_mul_bits(y, 2);
}

/// A byte is twice its upper seven bits plus its low bit.
proof fn lemma_gf_halve(c: u8)
    ensures
        c == spec_gf_mul(c >> 1u8, 2) ^ (c & 1u8),
        c & 1u8 == 0 || c & 1u8 == 1,
        c > 0 ==> (c >> 1u8) < c,
{
    lemma_gf_mul_bits(c >> 1u8, 2);
    assert(c == gf_mul_bits(c >> 1u8, 2) ^ (c & 1u8) && (c & 1u8 == 0 || c & 1u8 == 1)
        && (c > 0 ==> (c >> 1u8) < c)) by (bit_vector);
}

/// GF(256) multiplication is associative.
pub proof fn lemma_gf_mul_associative(a: u8, b: u8, c: u8)
    ensures
        spec_gf_mul(spec_gf_mul(a, b), c) == spec_gf_mul(a, spec_gf_mul(b, c)),
    decreases c,
{
    let ab = spec_gf_mul(a, b);
    if c == 0 {
        lemma_gf_mul_zero_one(ab);
        lemma_gf_mul_zero_one(b);
        lemma_gf_mul_zero_one(a);
    } else {
        let h = c >> 1u8;
        let bit = c & 1u8;
        lemma_gf_halve(c);
        lemma_gf_mul_associative(a, b, h);
        let h2 = spec_gf_mul(h, 2);
        // (ab)(2h) = a(b(2h))
        lemma_gf_mul_assoc_two(ab, h);
        lemma_gf_mul_assoc_two(a, spec_gf_mul(b, h));
        lemma_gf_mul_assoc_two(b, h);
        assert(spec_gf_mul(ab, h2) == spec_gf_mul(a, spec_gf_mul(b, h2)));
        // the low bit
        lemma_gf_mul_zero_one(ab);
        lemma_gf_mul_zero_one(b);
        lemma_gf_mul_zero_one(a);
        assert(spec_gf_mul(ab, bit) == spec_gf_mul(a, spec_gf_mul(b, bit)));
        lemma_gf_mul_distributive(ab, h2, bit);
        lemma_gf_mul_distributive(b, h2, bit);
        lemma_gf_mul_distributive(a, spec_gf_mul(b, h2), spec_gf_mul(b, bit));
    }
}

/// `gf_inv` inverts every non-zero element: `a * gf_inv(a) == 1`.
pub proof fn lemma_gf_inverse(a: u8)
    requires
        a != 0,
    ensures
        spec_gf_mul(a, spec_gf_inv(a)) == 1,
        spec_gf_mul(spec_gf_inv(a), a) == 1,
{
    reveal_with_fuel(gf_pow_rounds, 9);
    let a2 = spec_gf_mul(a, a);
    let a4 = spec_gf_mul(a2, a2);
    let a8 = spec_gf_mul(a4, a4);
    let a16 = spec_gf_mul(a8, a8);
    let a32 = spec_gf_mul(a16, a16);
    let a64 = spec_gf_mul(a32, a32);
    let a128 = spec_gf_mul(a64, a64);
    let q0 = spec_gf_mul(1, a2);
    let q1 = spec_gf_mul(q0, a4);
    let q2 = spec_gf_mul(q1, a8);
    let q3 = spec_gf_mul(q2, a16);
    let q4 = spec_gf_mul(q3, a32);
    let q5 = spec_gf_mul(q4, a64);
    let r = spec_gf_mul(q5, a128);
    assert(spec_gf_inv(a) == r);
    lemma_gf_mul_bits(a, a);
    lemma_gf_mul_bits(a2, a2);
    lemma_gf_mul_bits(a4, a4);
    lemma_gf_mul_bits(a8, a8);
    lemma_gf_mul_bits(a16, a16);
    lemma_gf_mul_bits(a32, a32);
    lemma_gf_mul_bits(a64, a64);
    lemma_gf_mul_bits(1, a2);
    lemma_gf_mul_bits(q0, a4);
    lemma_gf_mul_bits(q1, a8);
    lemma_gf_mul_bits(q2, a16);
    lemma_gf_mul_bits(q3, a32);
    lemma_gf_mul_bits(q4, a64);
    lemma_gf_mul_bits(q5, a128);
    lemma_gf_mul_bits(a, r);
    assert(gf_mul_bits(a, r) == 1) by (bit_vector)
        requires
            a != 0,
            a2 == gf_mul_bits(a, a), a4 == gf_mul_bits(a2, a2), a8 == gf_mul_bits(a4, a4),
            a16 == gf_mul_bits(a8, a8), a32 == gf_mul_bits(a16, a16), a64 == gf_mul_bits(a32, a32),
            a128 == gf_mul_bits(a64, a64),
            q0 == gf_mul_bits(1, a2), q1 == gf_mul_bits(q0, a4), q2 == gf_mul_bits(q1, a8),
            q3 == gf_mul_bits(q2, a16), q4 == gf_mul_bits(q3, a32), q5 == gf_mul_bits(q4, a64),
            r == gf_mul_bits(q5, a128);
    lemma_gf_mul_commutative(a, r);
}

/// Sum in GF(256) (xor).
pub fn gf_add(a: u8, b: u8) -> (r: u8)
    ensures
        r == a ^ b,
{
    a ^ b
}

/// Product in GF(256).
pub fn gf_mul(a0: u8, b0: u8) -> (r: u8)
    ensures
        r == spec_gf_mul(a0, b0),
{
    let mut a = a0;
    let mut b = b0;
    let mut p: u8 = 0;
    let mut i: u8 = 0;
    while i < 8
        invariant
            i <= 8,
            gf_mul_rounds(a, b, p, (8 - i) as nat) == spec_gf_mul(a0, b0),
        decreases 8 - i,
    {
        if b & 1 != 0 {
            p = p ^ a;
        }
        let hi = a & 0x80;
        a = a << 1u8;
        if hi != 0 {
            a = a ^ IRRED_LOW;
        }
        b = b >> 1u8;
        i = i + 1;
    }
    p
}

/// Inverse in GF(256) (`a^254`; `0` maps to `0`).
pub fn gf_inv(a: u8) -> (r: u8)
    ensures
        r == spec_gf_inv(a),
{
    let mut x = a;
    let mut acc: u8 = 1;
    let mut e: u16 = 254;
    while e > 0
        invariant
            gf_pow_rounds(x, acc, e as nat) == spec_gf_inv(a),
        decreases e,
    {
        if e % 2 == 1 {
            acc = gf_mul(acc, x);
        }
        x = gf_mul(x, x);
        e = e / 2;
    }
    acc
}


/// Horner evaluation `c_0 + x*(c_1 + x*(c_2 + ...))` in GF(256).
pub open spec fn spec_eval_poly(coeffs: Seq<u8>, x: u8) -> u8
    decreases coeffs.len(),
{
    if coeffs.len() == 0 {
        0
    } else {
        spec_gf_mul(spec_eval_poly(coeffs.drop_first(), x), x) ^ coeffs[0]
    }
}

/// Evaluate the polynomial with coefficients `coeffs` (constant term first) at `x`.
pub fn eval_poly(coeffs: &[u8], x: u8) -> (r: u8)
    ensures
        r == spec_eval_poly(coeffs@, x),
{
    let n = coeffs.len();
    let mut y: u8 = 0;
    let mut k: usize = n;
    while k > 0
        invariant
            n == coeffs@.len(),
            k <= n,
            y == spec_eval_poly(coeffs@.subrange(k as int, n as int), x),
        decreases k,
    {
        proof {
            assert(coeffs@.subrange(k - 1, n as int).drop_first() =~= coeffs@.subrange(k as int, n as int));
        }
        y = gf_add(gf_mul(y, x), coeffs[k - 1]);
        k = k - 1;
    }
    assert(coeffs@.subrange(0, n as int) =~= coeffs@);
    y
}

pub const MSG_THRESHOLD_RANGE: &'static str = "threshold must be in 1..=n";
pub const MSG_SHARE_COUNT_RANGE: &'static str = "n must be in 1..=255";

/// Draws allowed for a non-zero leading coefficient before it is set to one.
pub const LEADING_COEFF_DRAWS: u32 = 1024;

/// Shares `shares` evaluate, byte by byte, the polynomials `polys` (one per secret
/// byte): each has `threshold` coefficients, the secret byte as constant term and,
/// when `threshold > 1`, a non-zero leading coefficient.
pub open spec fn shares_from_polys(secret: Seq<u8>, threshold: nat, shares: Seq<SeedShare>, polys: Seq<Seq<u8>>) -> bool {
    &&& polys.len() == 32
    &&& forall|b: int| 0 <= b < 32 ==> (#[trigger] polys[b]).len() == threshold && polys[b][0] == secret[b]
        && (threshold > 1 ==> polys[b][threshold - 1] != 0)
    &&& forall|i: int, b: int| 0 <= i < shares.len() && 0 <= b < 32
        ==> #[trigger] shares[i].y@[b] == spec_eval_poly(polys[b], shares[i].x)
}

/// Random polynomial for one secret byte: constant term `c0`, `threshold - 1`
/// random bytes, leading one redrawn while zero.
fn random_poly<R: ByteSource>(c0: u8, threshold: usize, rng: &mut R) -> (r: Vec<u8>)
    requires
        threshold >= 1,
    ensures
        r@.len() == threshold,
        r@[0] == c0,
        threshold > 1 ==> r@[threshold - 1] != 0,
{
    let mut coeffs: Vec<u8> = Vec::new();
    coeffs.push(c0);
    while coeffs.len() < threshold
        invariant
            1 <= coeffs@.len() <= threshold,
            coeffs@[0] == c0,
        decreases threshold - coeffs@.len(),
    {
        coeffs.push(rng.next_byte());
    }
    if threshold > 1 {
        let mut draws: u32 = 0;
        while coeffs[threshold - 1] == 0 && draws < LEADING_COEFF_DRAWS
            invariant
                coeffs@.len() == threshold,
                threshold > 1,
                coeffs@[0] == c0,
            decreases LEADING_COEFF_DRAWS - draws,
        {
            let b = rng.next_byte();
            coeffs.set(threshold - 1, b);
            draws = draws + 1;
        }
        if coeffs[threshold - 1] == 0 {
            coeffs.set(threshold - 1, 1);
        }
    }
    coeffs
}

/// Split a 32-byte seed into `n` shares with reconstruction threshold `threshold`
/// (`1 <= threshold <= n <= 255`); share `i` has `x = i + 1`.
pub fn split_seed<R: ByteSource>(secret: &[u8; 32], threshold: usize, n: usize, rng: &mut R) -> (r: Result<Vec<SeedShare>, ShamirError>)
    ensures
        (threshold == 0 || threshold > n) ==> r == Err::<Vec<SeedShare>, ShamirError>(ShamirError::BadParams(MSG_THRESHOLD_RANGE)),
        !(threshold == 0 || threshold > n) && n > 255 ==> r == Err::<Vec<SeedShare>, ShamirError>(ShamirError::BadParams(MSG_SHARE_COUNT_RANGE)),
        1 <= threshold <= n <= 255 ==> r is Ok,
        r matches Ok(shares) ==> {
            &&& shares@.len() == n
            &&& forall|i: int| 0 <= i < n ==> (#[trigger] shares@[i]).x == i + 1
            &&& exists|polys: Seq<Seq<u8>>| shares_from_polys(secret@, threshold as nat, shares@, polys)
        },
{
    if threshold == 0 || threshold > n {
        return Err(ShamirError::BadParams(MSG_THRESHOLD_RANGE));
    }
    if n == 0 || n > 255 {
        return Err(ShamirError::BadParams(MSG_SHARE_COUNT_RANGE));
    }
    let mut polys: Vec<Vec<u8>> = Vec::new();
    let mut b: usize = 0;
    while b < 32
        invariant
            1 <= threshold <= n <= 255,
            b <= 32,
            polys@.len() == b,
            forall|k: int| 0 <= k < b ==> (#[trigger] polys@[k])@.len() == threshold && polys@[k]@[0] == secret@[k]
                && (threshold > 1 ==> polys@[k]@[threshold - 1] != 0),
        decreases 32 - b,
    {
        let p = random_poly(secret[b], threshold, rng);
        polys.push(p);
        b = b + 1;
    }
    let ghost ps = polys@.map_values(|v: Vec<u8>| v@);
    let mut shares: Vec<SeedShare> = Vec::new();
    let mut i: usize = 0;
    while i < n
        invariant
            1 <= threshold <= n <= 255,
            i <= n,
            polys@.len() == 32,
            ps == polys@.map_values(|v: Vec<u8>| v@),
            shares@.len() == i,
            forall|k: int| 0 <= k < i ==> (#[trigger] shares@[k]).x == k + 1,
            forall|k: int, c: int| 0 <= k < i && 0 <= c < 32
                ==> #[trigger] shares@[k].y@[c] == spec_eval_poly(ps[c], shares@[k].x),
        decreases n - i,
    {
        let x: u8 = (i + 1) as u8;
        let mut y = [0u8; 32];
        let mut c: usize = 0;
        while c < 32
            invariant
                c <= 32,
                polys@.len() == 32,
                ps == polys@.map_values(|v: Vec<u8>| v@),
                forall|d: int| 0 <= d < c ==> y@[d] == spec_eval_poly(ps[d], x),
            decreases 32 - c,
        {
            y[c] = eval_poly(polys[c].as_slice(), x);
            c = c + 1;
        }
        shares.push(SeedShare { x, y });
        i = i + 1;
    }
    proof {
        assert(shares_from_polys(secret@, threshold as nat, shares@, ps));
    }
    Ok(shares)
}

/// Whether the x-coordinates of the first `k` shares are valid and distinct:
/// the first problem met, in order.
pub open spec fn spec_check_xs(s: Seq<SeedShare>, k: nat) -> Option<ShamirError>
    decreases k,
{
    if k == 0 {
        None
    } else {
        match spec_check_xs(s, (k - 1) as nat) {
            Some(e) => Some(e),
            None => if s[k - 1].x == 0 {
                Some(ShamirError::InvalidX)
            } else if exists|j: int| 0 <= j < k - 1 && #[trigger] s[j].x == s[k - 1].x {
                Some(ShamirError::DuplicateX)
            } else {
                None
            },
        }
    }
}

/// Product of the x-coordinates of shares `j < k`, `j != i` (Lagrange numerator at 0).
pub open spec fn basis_num(s: Seq<SeedShare>, i: int, k: nat) -> u8
    decreases k,
{
    if k == 0 {
        1
    } else if k - 1 == i {
        basis_num(s, i, (k - 1) as nat)
    } else {
        spec_gf_mul(basis_num(s, i, (k - 1) as nat), s[k - 1].x)
    }
}

/// Product of `x_i + x_j` over shares `j < k`, `j != i` (Lagrange denominator).
pub open spec fn basis_den(s: Seq<SeedShare>, i: int, k: nat) -> u8
    decreases k,
{
    if k == 0 {
        1
    } else if k - 1 == i {
        basis_den(s, i, (k - 1) as nat)
    } else {
        spec_gf_mul(basis_den(s, i, (k - 1) as nat), s[i].x ^ s[k - 1].x)
    }
}

/// Lagrange interpolation at zero of byte `b` over the first `k` shares; `None`
/// when a denominator vanishes.
pub open spec fn lagrange_acc(s: Seq<SeedShare>, b: int, k: nat) -> Option<u8>
    decreases k,
{
    if k == 0 {
        Some(0)
    } else {
        match lagrange_acc(s, b, (k - 1) as nat) {
            None => None,
            Some(acc) => {
                let den = basis_den(s, k - 1, s.len());
                if den == 0 {
                    None
                } else {
                    let li = spec_gf_mul(basis_num(s, k - 1, s.len()), spec_gf_inv(den));
                    Some(acc ^ spec_gf_mul(s[k - 1].y@[b], li))
                }
            },
        }
    }
}

/// What reconstructing from `s` gives.
pub open spec fn spec_reconstruct(s: Seq<SeedShare>) -> Result<Seq<u8>, ShamirError> {
    if s.len() == 0 {
        Err(ShamirError::TooFewShares)
    } else if spec_check_xs(s, s.len()) is Some {
        Err(spec_check_xs(s, s.len())->0)
    } else if lagrange_acc(s, 0, s.len()) is None {
        Err(ShamirError::DuplicateX)
    } else {
        Ok(Seq::new(32, |b: int| lagrange_acc(s, b, s.len())->0))
    }
}

/// Whether interpolation fails does not depend on the byte.
proof fn lemma_lagrange_none_any_byte(s: Seq<SeedShare>, b: int, c: int, k: nat)
    requires
        k <= s.len(),
    ensures
        (lagrange_acc(s, b, k) is None) == (lagrange_acc(s, c, k) is None),
    decreases k,
{
    if k > 0 {
        lemma_lagrange_none_any_byte(s, b, c, (k - 1) as nat);
    }
}

fn lagrange_at_zero(shares: &[SeedShare], b: usize) -> (r: Result<u8, ShamirError>)
    requires
        b < 32,
    ensures
        match lagrange_acc(shares@, b as int, shares@.len()) {
            Some(v) => r == Ok::<u8, ShamirError>(v),
            None => r == Err::<u8, ShamirError>(ShamirError::DuplicateX),
        },
{
    let n = shares.len();
    let mut acc: u8 = 0;
    let mut i: usize = 0;
    while i < n
        invariant
            b < 32,
            n == shares@.len(),
            i <= n,
            lagrange_acc(shares@, b as int, i as nat) == Some(acc),
        decreases n - i,
    {
        let mut num: u8 = 1;
        let mut den: u8 = 1;
        let mut j: usize = 0;
        while j < n
            invariant
                n == shares@.len(),
                i < n,
                j <= n,
                num == basis_num(shares@, i as int, j as nat),
                den == basis_den(shares@, i as int, j as nat),
            decreases n - j,
        {
            if i != j {
                num = gf_mul(num, shares[j].x);
                den = gf_mul(den, gf_add(shares[i].x, shares[j].x));
            }
            j = j + 1;
        }
        if den == 0 {
            proof {
                lemma_lagrange_acc_stays_none(shares@, b as int, (i + 1) as nat);
            }
            return Err(ShamirError::DuplicateX);
        }
        let li = gf_mul(num, gf_inv(den));
        acc = gf_add(acc, gf_mul(shares[i].y[b], li));
        i = i + 1;
    }
    Ok(acc)
}

/// Once interpolation fails on a prefix it fails on the whole list.
proof fn lemma_lagrange_acc_stays_none(s: Seq<SeedShare>, b: int, k: nat)
    requires
        k <= s.len(),
        lagrange_acc(s, b, k) is None,
    ensures
        lagrange_acc(s, b, s.len()) is None,
    decreases s.len() - k,
{
    if k < s.len() {
        lemma_lagrange_acc_stays_none(s, b, k + 1);
    }
}

/// Once the x-coordinate check fails on a prefix, the first failure stands.
proof fn lemma_check_xs_stays(s: Seq<SeedShare>, k: nat)
    requires
        k <= s.len(),
        spec_check_xs(s, k) is Some,
    ensures
        spec_check_xs(s, s.len()) == spec_check_xs(s, k),
    decreases s.len() - k,
{
    if k < s.len() {
        lemma_check_xs_stays(s, k + 1);
    }
}

/// Reconstruct a 32-byte seed from shares with distinct non-zero x-coordinates.
pub fn reconstruct_seed(shares: &[SeedShare]) -> (r: Result<[u8; 32], ShamirError>)
    ensures
        match (r, spec_reconstruct(shares@)) {
            (Ok(a), Ok(v)) => a@ == v,
            (Err(e), Err(f)) => e == f,
            _ => false,
        },
{
    let n = shares.len();
    if n == 0 {
        return Err(ShamirError::TooFewShares);
    }
    let mut seen = [false; 256];
    let mut k: usize = 0;
    while k < n
        invariant
            n == shares@.len(),
            k <= n,
            spec_check_xs(shares@, k as nat) is None,
            forall|v: int| 0 <= v < 256 ==> (seen@[v] <==> exists|j: int| 0 <= j < k && #[trigger] shares@[j].x == v),
        decreases n - k,
    {
        let x = shares[k].x;
        if x == 0 {
            proof { lemma_check_xs_stays(shares@, (k + 1) as nat); }
            return Err(ShamirError::InvalidX);
        }
        if seen[x as usize] {
            proof { lemma_check_xs_stays(shares@, (k + 1) as nat); }
            return Err(ShamirError::DuplicateX);
        }
        seen[x as usize] = true;
        proof {
            assert forall|v: int| 0 <= v < 256 implies (seen@[v] <==> exists|j: int| 0 <= j < k + 1 && #[trigger] shares@[j].x == v) by {
                if v == x as int {
                    assert(shares@[k as int].x == v);
                }
            }
        }
        k = k + 1;
    }
    let mut secret = [0u8; 32];
    let mut b: usize = 0;
    while b < 32
        invariant
            n == shares@.len(),
            n > 0,
            spec_check_xs(shares@, n as nat) is None,
            b <= 32,
            b > 0 ==> lagrange_acc(shares@, 0, n as nat) is Some,
            forall|c: int| 0 <= c < b ==> lagrange_acc(shares@, c, n as nat) == Some(#[trigger] secret@[c]),
        decreases 32 - b,
    {
        match lagrange_at_zero(shares, b) {
            Ok(v) => {
                proof { lemma_lagrange_none_any_byte(shares@, 0, b as int, n as nat); }
                secret[b] = v;
            },
            Err(e) => {
                proof { lemma_lagrange_none_any_byte(shares@, 0, b as int, n as nat); }
                return Err(e);
            },
        }
        b = b + 1;
    }
    proof {
        assert(secret@ =~= Seq::new(32, |c: int| lagrange_acc(shares@, c, shares@.len())->0));
    }
    Ok(secret)
}

impl ShamirError {
    /// Human-readable text of the error.
    pub fn message(&self) -> (r: String)
        ensures
            r@ == spec_shamir_message(*self),
    {
        match self {
            ShamirError::BadParams(msg) => {
                let mut s = owned("shamir params: ");
                s.append(msg);
                s
            },
            ShamirError::TooFewShares => owned("too few shares to reconstruct"),
            ShamirError::DuplicateX => owned("duplicate share x-coordinate"),
            ShamirError::InvalidX => owned("share x must be in 1..=255"),
        }
    }
}

pub open spec fn spec_shamir_message(e: ShamirError) -> Seq<char> {
    match e {
        ShamirError::BadParams(msg) => "shamir params: "@ + msg@,
        ShamirError::TooFewShares => "too few shares to reconstruct"@,
        ShamirError::DuplicateX => "duplicate share x-coordinate"@,
        ShamirError::InvalidX => "share x must be in 1..=255"@,
    }
}

/// Share text: `xx` then 64 lower-case hex digits of `y`.
pub fn encode_share_hex(share: &SeedShare) -> (r: String)
    ensures
        r@ == ascii_chars(spec_hex(seq![share.x] + share.y@)),
{
    let mut bytes: Vec<u8> = Vec::new();
    bytes.push(share.x);
    extend_bytes(&mut bytes, share.y.as_slice());
    let mut out: Vec<u8> = Vec::new();
    push_hex(&mut out, bytes.as_slice());
    proof {
        assert(bytes@ =~= seq![share.x] + share.y@);
        assert(out@ =~= spec_hex(bytes@));
        lemma_hex_len(bytes@);
    }
    string_from_ascii(out)
}

/// One byte from two hex digits (high nibble first); any other character is refused.
pub open spec fn spec_hex_pair(c0: u8, c1: u8) -> Option<u8> {
    if spec_nibble(c0) is Some && spec_nibble(c1) is Some {
        Some((spec_nibble(c0)->0 * 16 + spec_nibble(c1)->0) as u8)
    } else {
        None
    }
}

/// Text of the integer parse error for a bad digit.
pub const MSG_INVALID_DIGIT: &'static str = "invalid digit found in string";

/// Decoded bytes of hex text, two characters per byte, or the error text.
pub open spec fn spec_hex_decode(b: Seq<u8>) -> Result<Seq<u8>, Seq<char>> {
    if b.len() % 2 != 0 {
        Err("odd hex length"@)
    } else if exists|i: int| 0 <= i < b.len() / 2 && #[trigger] spec_hex_pair(b[2 * i], b[2 * i + 1]) is None {
        Err(MSG_INVALID_DIGIT@)
    } else {
        Ok(Seq::new(b.len() / 2, |i: int| spec_hex_pair(b[2 * i], b[2 * i + 1])->0))
    }
}

fn hex_pair(c0: u8, c1: u8) -> (r: Option<u8>)
    ensures
        r == spec_hex_pair(c0, c1),
{
    match (nibble(c0), nibble(c1)) {
        (Some(h), Some(l)) => Some(h * 16 + l),
        _ => None,
    }
}

fn hex_decode(b: &[u8]) -> (r: Result<Vec<u8>, String>)
    ensures
        match (r, spec_hex_decode(b@)) {
            (Ok(v), Ok(w)) => v@ == w,
            (Err(m), Err(t)) => m@ == t,
            _ => false,
        },
{
    if b.len() % 2 != 0 {
        return Err(owned("odd hex length"));
    }
    let mut out: Vec<u8> = Vec::new();
    let mut i: usize = 0;
    while i < b.len() / 2
        invariant
            b@.len() % 2 == 0,
            i <= b@.len() / 2,
            out@.len() == i,
            forall|k: int| 0 <= k < i ==> (#[trigger] spec_hex_pair(b@[2 * k], b@[2 * k + 1])) is Some
                && out@[k] == spec_hex_pair(b@[2 * k], b@[2 * k + 1])->0,
        decreases b@.len() / 2 - i,
    {
        match hex_pair(b[2 * i], b[2 * i + 1]) {
            Some(v) => out.push(v),
            None => {
                return Err(owned(MSG_INVALID_DIGIT));
            },
        }
        i = i + 1;
    }
    proof {
        assert(out@ =~= Seq::new(b@.len() / 2, |k: int| spec_hex_pair(b@[2 * k], b@[2 * k + 1])->0));
    }
    Ok(out)
}

/// Text of the length error for a share of `n` bytes.
pub open spec fn share_length_text(n: nat) -> Seq<char> {
    "share hex must be 66 chars (1-byte x + 32-byte y), got "@ + ascii_chars(spec_decimal(n))
}

/// What decoding share text gives.
pub open spec fn spec_decode_share(text: Seq<char>) -> Result<(u8, Seq<u8>), Seq<char>> {
    let b = encode_utf8(trimmed(text));
    if b.len() != 66 {
        Err(share_length_text(b.len()))
    } else {
        match spec_hex_decode(b) {
            Err(m) => Err(m),
            Ok(v) => if v[0] == 0 {
                Err("share x must be in 1..=255"@)
            } else {
                Ok((v[0], v.subrange(1, 33)))
            },
        }
    }
}

/// Parse share text (surrounding whitespace trimmed): `xx` then 64 hex digits.
pub fn decode_share_hex(hex: &str) -> (r: Result<SeedShare, String>)
    ensures
        match (r, spec_decode_share(hex@)) {
            (Ok(s), Ok((x, y))) => s.x == x && s.y@ == y,
            (Err(m), Err(t)) => m@ == t,
            _ => false,
        },
{
    let t = str_trim(hex);
    let b = t.as_bytes();
    let n = b.len();
    if n != 66 {
        let mut msg = owned("share hex must be 66 chars (1-byte x + 32-byte y), got ");
        proof { lemma_decimal_ascii(n as nat); }
        let d = string_from_ascii(decimal(n as u64));
        msg.append(d.as_str());
        return Err(msg);
    }
    let bytes = match hex_decode(b) {
        Ok(v) => v,
        Err(m) => return Err(m),
    };
    let x = bytes[0];
    if x == 0 {
        return Err(owned("share x must be in 1..=255"));
    }
    let y = crate::wire::copy_32(bytes.as_slice(), 1);
    Ok(SeedShare { x, y })
}
/// Digits `2i` and `2i + 1` of the hex text of `b` are the high and low nibble of `b[i]`.
proof fn lemma_hex_digits(b: Seq<u8>)
    ensures
        spec_hex(b).len() == 2 * b.len(),
        forall|i: int| 0 <= i < b.len() ==> spec_hex(b)[2 * i] == hex_digit((#[trigger] b[i] / 16) as int)
            && spec_hex(b)[2 * i + 1] == hex_digit((b[i] % 16) as int),
    decreases b.len(),
{
    lemma_hex_len(b);
    if b.len() > 0 {
        let q = b.drop_last();
        lemma_hex_digits(q);
        let h = spec_hex(b);
        let p = spec_hex(q);
        assert forall|i: int| 0 <= i < b.len() implies h[2 * i] == hex_digit((#[trigger] b[i] / 16) as int)
            && h[2 * i + 1] == hex_digit((b[i] % 16) as int) by {
            if i < q.len() {
                assert(b[i] == q[i]);
                assert(h[2 * i] == p[2 * i]);
                assert(h[2 * i + 1] == p[2 * i + 1]);
            }
        }
    }
}

/// A hex digit reads back as its nibble.
proof fn lemma_nibble_of_digit(n: int)
    requires
        0 <= n < 16,
    ensures
        spec_nibble(hex_digit(n)) == Some(n as u8),
        0x30 <= hex_digit(n) <= 0x66,
{
}

/// Share text round trip: decoding the text `encode_share_hex` gives for a share
/// whose x is not zero gives that share back.
pub proof fn lemma_share_hex_roundtrip(x: u8, y: Seq<u8>)
    requires
        x != 0,
        y.len() == 32,
    ensures
        spec_decode_share(ascii_chars(spec_hex(seq![x] + y))) == Ok::<(u8, Seq<u8>), Seq<char>>((x, y)),
{
    let b = seq![x] + y;
    let h = spec_hex(b);
    lemma_hex_digits(b);
    lemma_hex_len(b);
    let t = ascii_chars(h);
    assert forall|i: int| 0 <= i < h.len() implies 0x30 <= #[trigger] h[i] <= 0x66 by {
        let k = i / 2;
        assert(0 <= k < b.len());
        if i % 2 == 0 {
            assert(i == 2 * k);
            lemma_nibble_of_digit((b[k] / 16) as int);
        } else {
            assert(i == 2 * k + 1);
            lemma_nibble_of_digit((b[k] % 16) as int);
        }
    }
    assert(is_ascii_chars(t));
    assert(!is_white_space(t[0]));
    assert(!is_white_space(t.last()));
    lemma_trimmed_unchanged(t);
    is_ascii_chars_encode_utf8(t);
    let e = encode_utf8(t);
    assert(e =~= h) by {
        assert forall|i: int| 0 <= i < h.len() implies e[i] == h[i] by {
            assert(t[i] == h[i] as char);
            assert(t[i] as u8 == e[i]);
        }
    }
    assert forall|i: int| 0 <= i < 33 implies #[trigger] spec_hex_pair(h[2 * i], h[2 * i + 1]) == Some(b[i]) by {
        lemma_nibble_of_digit((b[i] / 16) as int);
        lemma_nibble_of_digit((b[i] % 16) as int);
    }
    let v = Seq::new(33, |i: int| spec_hex_pair(h[2 * i], h[2 * i + 1])->0);
    assert(v =~= b);
    assert(b.subrange(1, 33) =~= y);
}

/// ASCII lower case of one byte.
pub open spec fn ascii_lower(c: u8) -> u8 {
    if 0x41 <= c <= 0x5a { (c + 32) as u8 } else { c }
}

/// A hex digit's nibble written back is the digit in lower case.
proof fn lemma_digit_of_nibble(c: u8)
    requires
        spec_nibble(c) is Some,
    ensures
        hex_digit(spec_nibble(c)->0 as int) == ascii_lower(c),
        spec_nibble(c)->0 < 16,
{
}

/// Share text that decodes is, after trimming, the lower-case form of the share's
/// encoding: decoding accepts exactly the 66 hex digits `encode_share_hex` writes,
/// in either case.
pub proof fn lemma_decoded_share_text(text: Seq<char>, x: u8, y: Seq<u8>)
    requires
        spec_decode_share(text) == Ok::<(u8, Seq<u8>), Seq<char>>((x, y)),
    ensures
        x != 0,
        y.len() == 32,
        spec_hex(seq![x] + y) == encode_utf8(trimmed(text)).map_values(|c: u8| ascii_lower(c)),
{
    let b = encode_utf8(trimmed(text));
    assert(b.len() == 66);
    let v = Seq::new(33, |i: int| spec_hex_pair(b[2 * i], b[2 * i + 1])->0);
    assert(spec_hex_decode(b) == Ok::<Seq<u8>, Seq<char>>(v));
    let w = seq![x] + y;
    assert(w =~= v);
    let h = spec_hex(w);
    lemma_hex_digits(w);
    let l = b.map_values(|c: u8| ascii_lower(c));
    assert forall|k: int| 0 <= k < 66 implies h[k] == l[k] by {
        let i = k / 2;
        assert(spec_hex_pair(b[2 * i], b[2 * i + 1]) is Some);
        lemma_digit_of_nibble(b[2 * i]);
        lemma_digit_of_nibble(b[2 * i + 1]);
        let hi = spec_nibble(b[2 * i])->0;
        let lo = spec_nibble(b[2 * i + 1])->0;
        assert(w[i] == (hi * 16 + lo) as u8);
        assert((w[i] / 16) as int == hi as int);
        assert((w[i] % 16) as int == lo as int);
        if k % 2 == 0 {
            assert(k == 2 * i);
        } else {
            assert(k == 2 * i + 1);
        }
    }
    assert(h =~= l);
}

} // verus!
