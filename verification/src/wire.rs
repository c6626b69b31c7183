//! Byte-level helpers shared by the wire formats of the library: comparisons,
//! little-endian integers, ASCII hex and decimal text.
use vstd::prelude::*;
use vstd::bytes::{
    spec_u32_from_le_bytes, spec_u32_to_le_bytes, spec_u64_from_le_bytes, spec_u64_to_le_bytes,
};

verus! {

/// Byte-wise equality of two slices.
pub fn bytes_eq(a: &[u8], b: &[u8]) -> (r: bool)
    ensures
        r == (a@ == b@),
{
    if a.len() != b.len() {
        return false;
    }
    let mut i: usize = 0;
    while i < a.len()
        invariant
            a@.len() == b@.len(),
            i <= a@.len(),
            forall|j: int| 0 <= j < i ==> a@[j] == b@[j],
        decreases a@.len() - i,
    {
        if a[i] != b[i] {
            return false;
        }
        i = i + 1;
    }
    assert(a@ =~= b@);
    true
}

/// Appends `s` to `out`.
pub fn extend_bytes(out: &mut Vec<u8>, s: &[u8])
    ensures
        final(out)@ == old(out)@ + s@,
{
    let mut tail = vstd::slice::slice_to_vec(s);
    out.append(&mut tail);
}

/// Appends the 4 little-endian bytes of `x`.
pub fn push_u32_le(out: &mut Vec<u8>, x: u32)
    ensures
        final(out)@ == old(out)@ + spec_u32_to_le_bytes(x),
{
    let mut b = vstd::bytes::u32_to_le_bytes(x);
    out.append(&mut b);
}

/// Appends the 8 little-endian bytes of `x`.
pub fn push_u64_le(out: &mut Vec<u8>, x: u64)
    ensures
        final(out)@ == old(out)@ + spec_u64_to_le_bytes(x),
{
    let mut b = vstd::bytes::u64_to_le_bytes(x);
    out.append(&mut b);
}

/// The little-endian `u32` stored at `b[off..off + 4]`.
pub fn read_u32_le(b: &[u8], off: usize) -> (r: u32)
    requires
        off + 4 <= b@.len(),
    ensures
        r == spec_u32_from_le_bytes(b@.subrange(off as int, off + 4)),
{
    let _n = b.len();
    vstd::bytes::u32_from_le_bytes(&b[off..off + 4])
}

/// The little-endian `u64` stored at `b[off..off + 8]`.
pub fn read_u64_le(b: &[u8], off: usize) -> (r: u64)
    requires
        off + 8 <= b@.len(),
    ensures
        r == spec_u64_from_le_bytes(b@.subrange(off as int, off + 8)),
{
    let _n = b.len();
    vstd::bytes::u64_from_le_bytes(&b[off..off + 8])
}

/// Copy of `b[lo..hi]`.
pub fn copy_range(b: &[u8], lo: usize, hi: usize) -> (r: Vec<u8>)
    requires
        lo <= hi <= b@.len(),
    ensures
        r@ == b@.subrange(lo as int, hi as int),
{
    vstd::slice::slice_to_vec(&b[lo..hi])
}

/// Copy of `b[off..off + 32]` as an array.
pub fn copy_32(b: &[u8], off: usize) -> (r: [u8; 32])
    requires
        off + 32 <= b@.len(),
    ensures
        r@ == b@.subrange(off as int, off + 32),
{
    let mut out = [0u8; 32];
    let mut i: usize = 0;
    let n = b.len();
    while i < 32
        invariant
            off + 32 <= b@.len(),
            n == b@.len(),
            i <= 32,
            forall|j: int| 0 <= j < i ==> out@[j] == b@[off + j],
        decreases 32 - i,
    {
        out[i] = b[off + i];
        i = i + 1;
    }
    assert(out@ =~= b@.subrange(off as int, off + 32));
    out
}

/// Copy of a 64-byte slice as an array.
pub fn copy_64(b: &[u8]) -> (r: [u8; 64])
    requires
        b@.len() == 64,
    ensures
        r@ == b@,
{
    let mut out = [0u8; 64];
    let mut i: usize = 0;
    while i < 64
        invariant
            b@.len() == 64,
            i <= 64,
            forall|j: int| 0 <= j < i ==> out@[j] == b@[j],
        decreases 64 - i,
    {
        out[i] = b[i];
        i = i + 1;
    }
    assert(out@ =~= b@);
    out
}

/// Lower-case ASCII hex digit for a nibble.
pub open spec fn hex_digit(n: int) -> u8 {
    if n < 10 {
        (0x30 + n) as u8
    } else {
        (0x61 + n - 10) as u8
    }
}

/// Lower-case hex text of `b`, two digits per byte, high nibble first.
pub open spec fn spec_hex(b: Seq<u8>) -> Seq<u8>
    decreases b.len(),
{
    if b.len() == 0 {
        Seq::empty()
    } else {
        spec_hex(b.drop_last()) + seq![hex_digit((b.last() / 16) as int), hex_digit((b.last() % 16) as int)]
    }
}

/// The nibble value of an ASCII hex digit (either case), if it is one.
pub open spec fn spec_nibble(c: u8) -> Option<u8> {
    if 0x30 <= c <= 0x39 {
        Some((c - 0x30) as u8)
    } else if 0x61 <= c <= 0x66 {
        Some((c - 0x61 + 10) as u8)
    } else if 0x41 <= c <= 0x46 {
        Some((c - 0x41 + 10) as u8)
    } else {
        None
    }
}

/// Whether every byte of `s` is an ASCII hex digit.
pub open spec fn all_hex(s: Seq<u8>) -> bool {
    forall|i: int| 0 <= i < s.len() ==> (#[trigger] spec_nibble(s[i])) is Some
}

/// Bytes decoded from hex text `s` (even length, all digits), two digits per byte.
pub open spec fn spec_unhex(s: Seq<u8>) -> Seq<u8> {
    Seq::new(
        s.len() / 2,
        |i: int| (spec_nibble(s[2 * i])->0 * 16 + spec_nibble(s[2 * i + 1])->0) as u8,
    )
}

/// Whether each byte is ASCII.
pub open spec fn is_ascii_bytes(s: Seq<u8>) -> bool {
    forall|i: int| 0 <= i < s.len() ==> #[trigger] s[i] < 128
}

/// The characters of ASCII bytes.
pub open spec fn ascii_chars(s: Seq<u8>) -> Seq<char> {
    s.map_values(|b: u8| b as char)
}

/// Lower-case hex digit of nibble `n`.
pub fn hex_digit_exec(n: u8) -> (r: u8)
    requires
        n < 16,
    ensures
        r == hex_digit(n as int),
        r < 128,
{
    if n < 10 {
        0x30 + n
    } else {
        0x61 + n - 10
    }
}

pub proof fn lemma_hex_len(b: Seq<u8>)
    ensures
        spec_hex(b).len() == 2 * b.len(),
        is_ascii_bytes(spec_hex(b)),
    decreases b.len(),
{
    if b.len() > 0 {
        lemma_hex_len(b.drop_last());
        let h = spec_hex(b);
        let p = spec_hex(b.drop_last());
        assert forall|i: int| 0 <= i < h.len() implies #[trigger] h[i] < 128 by {
            if i < p.len() {
                assert(h[i] == p[i]);
            }
        }
    }
}

/// Appends the lower-case hex text of `b` to `out`.
pub fn push_hex(out: &mut Vec<u8>, b: &[u8])
    ensures
        final(out)@ == old(out)@ + spec_hex(b@),
{
    let ghost start = out@;
    let mut i: usize = 0;
    while i < b.len()
        invariant
            i <= b@.len(),
            out@ == start + spec_hex(b@.subrange(0, i as int)),
        decreases b@.len() - i,
    {
        let x = b[i];
        out.push(hex_digit_exec(x / 16));
        out.push(hex_digit_exec(x % 16));
        proof {
            let s = b@.subrange(0, i + 1);
            assert(s.drop_last() =~= b@.subrange(0, i as int));
            assert(s.last() == x);
        }
        i = i + 1;
    }
    assert(b@.subrange(0, b@.len() as int) =~= b@);
}

/// The nibble value of an ASCII hex digit (either case).
pub fn nibble(c: u8) -> (r: Option<u8>)
    ensures
        r == spec_nibble(c),
{
    if 0x30 <= c && c <= 0x39 {
        Some(c - 0x30)
    } else if 0x61 <= c && c <= 0x66 {
        Some(c - 0x61 + 10)
    } else if 0x41 <= c && c <= 0x46 {
        Some(c - 0x41 + 10)
    } else {
        None
    }
}

/// Decodes hex text of even length; `None` when a byte is not a hex digit.
pub fn unhex(s: &[u8]) -> (r: Option<Vec<u8>>)
    requires
        s@.len() % 2 == 0,
    ensures
        r is Some <==> all_hex(s@),
        r matches Some(v) ==> v@ == spec_unhex(s@),
{
    let mut out: Vec<u8> = Vec::new();
    let mut i: usize = 0;
    while i < s.len() / 2
        invariant
            s@.len() % 2 == 0,
            i <= s@.len() / 2,
            out@.len() == i,
            forall|j: int| 0 <= j < 2 * i ==> (#[trigger] spec_nibble(s@[j])) is Some,
            forall|j: int| 0 <= j < i ==> #[trigger] out@[j] == spec_unhex(s@)[j],
        decreases s@.len() / 2 - i,
    {
        let hi = nibble(s[2 * i]);
        let lo = nibble(s[2 * i + 1]);
        match (hi, lo) {
            (Some(h), Some(l)) => {
                out.push(h * 16 + l);
            },
            _ => {
                assert(!all_hex(s@));
                return None;
            },
        }
        i = i + 1;
    }
    assert(out@ =~= spec_unhex(s@));
    Some(out)
}

/// Decimal digits of `n` (no leading zeros; `"0"` for zero).
pub open spec fn spec_decimal(n: nat) -> Seq<u8>
    decreases n,
{
    if n < 10 {
        seq![(0x30 + n) as u8]
    } else {
        spec_decimal(n / 10) + seq![(0x30 + n % 10) as u8]
    }
}

pub proof fn lemma_decimal_ascii(n: nat)
    ensures
        is_ascii_bytes(spec_decimal(n)),
        spec_decimal(n).len() >= 1,
    decreases n,
{
    if n >= 10 {
        lemma_decimal_ascii(n / 10);
        let d = spec_decimal(n);
        let p = spec_decimal(n / 10);
        assert forall|i: int| 0 <= i < d.len() implies #[trigger] d[i] < 128 by {
            if i < p.len() {
                assert(d[i] == p[i]);
            }
        }
    }
}

/// Decimal text of `n`.
pub fn decimal(n: u64) -> (r: Vec<u8>)
    ensures
        r@ == spec_decimal(n as nat),
    decreases n,
{
    if n < 10 {
        let mut v: Vec<u8> = Vec::new();
        v.push(0x30 + (n as u8));
        v
    } else {
        let mut v = decimal(n / 10);
        v.push(0x30 + ((n % 10) as u8));
        v
    }
}

/// Parses unsigned decimal text (digits only, at least one) that fits in a `u64`.
pub open spec fn spec_parse_decimal(s: Seq<u8>) -> Option<u64>
    decreases s.len(),
{
    if s.len() == 0 {
        None
    } else if !(0x30 <= s.last() <= 0x39) {
        None
    } else {
        let d = (s.last() - 0x30) as int;
        if s.len() == 1 {
            Some(d as u64)
        } else {
            match spec_parse_decimal(s.drop_last()) {
                Some(p) => if p * 10 + d <= u64::MAX {
                    Some((p * 10 + d) as u64)
                } else {
                    None
                },
                None => None,
            }
        }
    }
}

/// Decimal text to `u64` (digits only, no sign, no surrounding space).
pub fn parse_decimal(s: &[u8]) -> (r: Option<u64>)
    ensures
        r == spec_parse_decimal(s@),
{
    if s.len() == 0 {
        return None;
    }
    let mut acc: u64 = 0;
    let mut i: usize = 0;
    while i < s.len()
        invariant
            0 < s@.len(),
            i <= s@.len(),
            i > 0 ==> spec_parse_decimal(s@.subrange(0, i as int)) == Some(acc),
            i == 0 ==> acc == 0,
        decreases s@.len() - i,
    {
        let c = s[i];
        let ghost pre = s@.subrange(0, i + 1);
        assert(pre.drop_last() =~= s@.subrange(0, i as int));
        assert(pre.last() == c);
        if c < 0x30 || c > 0x39 {
            proof {
                lemma_parse_decimal_prefix_none(s@, i as int + 1);
            }
            return None;
        }
        let d = (c - 0x30) as u64;
        if i == 0 {
            acc = d;
        } else {
            if acc > (u64::MAX - d) / 10 {
                proof {
                    assert(acc * 10 + d > u64::MAX) by (nonlinear_arith)
                        requires
                            acc > (u64::MAX - d) / 10,
                            d <= 9,
                    ;
                    lemma_parse_decimal_prefix_none(s@, i as int + 1);
                }
                return None;
            }
            assert(acc * 10 + d <= u64::MAX) by (nonlinear_arith)
                requires
                    acc <= (u64::MAX - d) / 10,
                    d <= 9,
            ;
            acc = acc * 10 + d;
        }
        i = i + 1;
    }
    assert(s@.subrange(0, s@.len() as int) =~= s@);
    Some(acc)
}

/// Once a prefix fails to parse, every longer text fails too.
pub proof fn lemma_parse_decimal_prefix_none(s: Seq<u8>, k: int)
    requires
        1 <= k <= s.len(),
        spec_parse_decimal(s.subrange(0, k)) is None,
    ensures
        spec_parse_decimal(s) is None,
    decreases s.len() - k,
{
    if k < s.len() {
        let next = s.subrange(0, k + 1);
        assert(next.drop_last() =~= s.subrange(0, k));
        lemma_parse_decimal_prefix_none(s, k + 1);
    } else {
        assert(s.subrange(0, k) =~= s);
    }
}

/// Whether `s` is lexicographically smaller than `t` (equal lengths).
pub open spec fn lex_lt(s: Seq<u8>, t: Seq<u8>) -> bool {
    exists|k: int|
        0 <= k < s.len() && k < t.len() && s[k] < t[k] && (forall|j: int|
            0 <= j < k ==> s[j] == t[j])
}

/// Lexicographic comparison of two 32-byte strings: `-1`, `0` or `1`.
pub fn compare_32(a: &[u8; 32], b: &[u8; 32]) -> (r: i8)
    ensures
        r == 0 <==> a@ == b@,
        r < 0 <==> lex_lt(a@, b@),
        r > 0 <==> lex_lt(b@, a@),
        -1 <= r <= 1,
{
    let mut i: usize = 0;
    while i < 32
        invariant
            i <= 32,
            forall|j: int| 0 <= j < i ==> a@[j] == b@[j],
        decreases 32 - i,
    {
        if a[i] < b[i] {
            proof {
                assert(lex_lt(a@, b@));
                assert(!lex_lt(b@, a@));
            }
            return -1;
        }
        if a[i] > b[i] {
            proof {
                assert(lex_lt(b@, a@));
                assert(!lex_lt(a@, b@));
            }
            return 1;
        }
        i = i + 1;
    }
    assert(a@ =~= b@);
    0
}


/// `lex_lt` is a strict order.
pub proof fn lemma_lex_lt_asym(s: Seq<u8>, t: Seq<u8>)
    requires
        lex_lt(s, t),
    ensures
        !lex_lt(t, s),
        s != t,
{
    let k = choose|k: int|
        0 <= k < s.len() && k < t.len() && s[k] < t[k] && (forall|j: int| 0 <= j < k ==> s[j] == t[j]);
    if lex_lt(t, s) {
        let m = choose|m: int|
            0 <= m < t.len() && m < s.len() && t[m] < s[m] && (forall|j: int| 0 <= j < m ==> t[j] == s[j]);
        if m < k {
            assert(s[m] == t[m]);
        } else if k < m {
            assert(t[k] == s[k]);
        }
    }
}

pub proof fn lemma_lex_lt_trans(s: Seq<u8>, t: Seq<u8>, u: Seq<u8>)
    requires
        lex_lt(s, t),
        lex_lt(t, u),
    ensures
        lex_lt(s, u),
{
    let k = choose|k: int|
        0 <= k < s.len() && k < t.len() && s[k] < t[k] && (forall|j: int| 0 <= j < k ==> s[j] == t[j]);
    let m = choose|m: int|
        0 <= m < t.len() && m < u.len() && t[m] < u[m] && (forall|j: int| 0 <= j < m ==> t[j] == u[j]);
    let w = if k < m { k } else { m };
    assert(s[w] < u[w]);
    assert(forall|j: int| 0 <= j < w ==> s[j] == u[j]);
}

/// Two byte strings of one length are equal or ordered one way.
pub proof fn lemma_lex_total(s: Seq<u8>, t: Seq<u8>)
    requires
        s.len() == t.len(),
    ensures
        s == t || lex_lt(s, t) || lex_lt(t, s),
{
    if s != t {
        assert(exists|i: int| 0 <= i < s.len() && s[i] != t[i]) by {
            if !(exists|i: int| 0 <= i < s.len() && s[i] != t[i]) {
                assert(s =~= t);
            }
        }
        let i = choose|i: int| 0 <= i < s.len() && s[i] != t[i];
        lemma_first_difference(s, t, i);
    }
}

proof fn lemma_first_difference(s: Seq<u8>, t: Seq<u8>, i: int)
    requires
        s.len() == t.len(),
        0 <= i < s.len(),
        s[i] != t[i],
    ensures
        lex_lt(s, t) || lex_lt(t, s),
    decreases i,
{
    if exists|j: int| 0 <= j < i && s[j] != t[j] {
        let j = choose|j: int| 0 <= j < i && s[j] != t[j];
        lemma_first_difference(s, t, j);
    } else {
        if s[i] < t[i] {
            assert(lex_lt(s, t));
        } else {
            assert(lex_lt(t, s));
        }
    }
}
} // verus!
