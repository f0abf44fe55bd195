//! Bit-packed encoding and decoding of ring elements, and the lossy
//! Compress/Decompress rounding, together with the bit-stream model both
//! are specified against.

use vstd::prelude::*;

use vstd::arithmetic::div_mod::lemma_breakdown;
use vstd::arithmetic::div_mod::lemma_div_basics;
use vstd::arithmetic::div_mod::lemma_div_denominator;
use vstd::arithmetic::div_mod::lemma_div_pos_is_pos;
use vstd::arithmetic::div_mod::lemma_fundamental_div_mod;
use vstd::arithmetic::div_mod::lemma_fundamental_div_mod_converse;
use vstd::arithmetic::div_mod::lemma_mod_bound;
use vstd::arithmetic::div_mod::lemma_multiply_divide_lt;
use vstd::arithmetic::div_mod::lemma_small_mod;
use vstd::arithmetic::mul::lemma_mul_inequality;
use vstd::arithmetic::power2::lemma2_to64;
use vstd::arithmetic::power2::lemma_pow2_pos;
use vstd::arithmetic::power2::lemma_pow2_strictly_increases;
use vstd::arithmetic::power2::lemma_pow2_unfold;
use vstd::arithmetic::power2::pow2;

use crate::errors::MlKemError;
use crate::ring::poly_wf;
use crate::ring::Ring;
use crate::ring::Q;

verus! {

/// Bit j of the nonnegative integer x, little-endian.
pub open spec fn nth_bit(x: int, j: nat) -> int {
    (x / pow2(j) as int) % 2
}

/// The value of the n bits bits[start], ..., bits[start + n - 1], read
/// little-endian.
pub open spec fn bits_val(bits: Seq<u8>, start: int, n: nat) -> int
    decreases n,
{
    if n == 0 {
        0
    } else {
        bits[start] + 2 * bits_val(bits, start + 1, (n - 1) as nat)
    }
}

/// Every entry of the sequence is a single bit.
pub open spec fn all_bits(bits: Seq<u8>) -> bool {
    forall|j: int| 0 <= j < bits.len() ==> bits[j] <= 1
}

/// The little-endian bit stream of a byte string: bit t is bit t % 8 of
/// byte t / 8.
pub open spec fn bytes_bits(bytes: Seq<u8>) -> Seq<u8> {
    Seq::new(bytes.len() * 8, |t: int| nth_bit(bytes[t / 8] as int, (t % 8) as nat) as u8)
}

/// The bit stream of 256 coefficients at d bits each: bit t is bit t % d
/// of coefficient t / d.
pub open spec fn coeff_bits(coeffs: Seq<u16>, d: nat) -> Seq<u8> {
    Seq::new(256 * d, |t: int| nth_bit(coeffs[t / d as int] as int, (t % d as int) as nat) as u8)
}

/// Encode_d: the 32 * d bytes whose bit stream is the coefficients' bit
/// stream; only the low d bits of each coefficient are read.
pub open spec fn spec_encode(coeffs: Seq<u16>, d: nat) -> Seq<u8> {
    Seq::new(32 * d, |i: int| bits_val(coeff_bits(coeffs, d), 8 * i, 8) as u8)
}

/// Decode_d: coefficient c is the value of bits d*c .. d*c + d of the
/// byte string's bit stream; at d = 12 the value is reduced modulo q.
pub open spec fn spec_decode(bytes: Seq<u8>, d: nat) -> Seq<u16> {
    Seq::new(256, |c: int| {
        let v = bits_val(bytes_bits(bytes), d * c, d);
        (if d == 12 { v % (Q as int) } else { v }) as u16
    })
}

/// Compress_d: x maps to round((2^d / q) * x) mod 2^d, with half-up
/// rounding.
pub open spec fn spec_compress_coeff(x: u16, d: nat) -> u16 {
    (((pow2((d + 1) as nat) * x + Q) / (2 * Q as int)) % pow2(d) as int) as u16
}

/// Decompress_d: y maps to round((q / 2^d) * y), with half-up rounding.
pub open spec fn spec_decompress_coeff(y: u16, d: nat) -> u16 {
    (((2 * (Q as int) * y + pow2(d)) / (pow2((d + 1) as nat) as int)) as u16)
}

pub open spec fn spec_compress(a: Seq<u16>, d: nat) -> Seq<u16> {
    Seq::new(256, |i: int| spec_compress_coeff(a[i], d))
}

pub open spec fn spec_decompress(a: Seq<u16>, d: nat) -> Seq<u16> {
    Seq::new(256, |i: int| spec_decompress_coeff(a[i], d))
}

/// Both factors below their bounds keep the product below the bounds'
/// product.
pub proof fn lemma_mul_upper(a: int, b: int, a0: int, b0: int)
    by (nonlinear_arith)
    requires
        0 <= a <= a0,
        0 <= b <= b0,
    ensures
        0 <= a * b <= a0 * b0,
{
}

/// The bit index of bit j of coefficient c lies inside the n * d bit
/// window.
pub proof fn lemma_block_index(c: int, j: int, d: int, n: int)
    by (nonlinear_arith)
    requires
        0 <= c < n,
        0 <= j < d,
    ensures
        0 <= d * c + j < n * d,
        0 <= c * d + j < n * d,
        d * c + j == c * d + j,
{
}

/// A bit of a nonnegative integer is 0 or 1.
pub proof fn lemma_nth_bit_is_bit(x: int, j: nat)
    requires
        0 <= x,
    ensures
        0 <= nth_bit(x, j) <= 1,
{
    lemma_pow2_pos(j);
    lemma_div_pos_is_pos(x, pow2(j) as int);
    lemma_mod_bound(x / pow2(j) as int, 2);
}

/// Bit 0 is the value modulo 2.
pub proof fn lemma_nth_bit_zero(x: int)
    requires
        0 <= x,
    ensures
        nth_bit(x, 0) == x % 2,
{
    lemma2_to64();
    lemma_div_basics(x);
}

/// Shifting right by one drops bit 0: bit j + 1 of x is bit j of x / 2.
pub proof fn lemma_nth_bit_shift(x: int, j: nat)
    requires
        0 <= x,
    ensures
        nth_bit(x, (j + 1) as nat) == nth_bit(x / 2, j),
{
    lemma_pow2_pos(j);
    lemma_pow2_unfold((j + 1) as nat);
    lemma_div_denominator(x, 2, pow2(j) as int);
    assert(x / 2 / pow2(j) as int == x / (2 * pow2(j) as int));
}

/// n bits hold a value below 2^n.
pub proof fn lemma_bits_val_bound(bits: Seq<u8>, start: int, n: nat)
    requires
        0 <= start,
        start + n <= bits.len(),
        all_bits(bits),
    ensures
        0 <= bits_val(bits, start, n) < pow2(n),
    decreases n,
{
    if n == 0 {
        lemma2_to64();
    } else {
        lemma_bits_val_bound(bits, start + 1, (n - 1) as nat);
        lemma_pow2_unfold(n);
    }
}

/// Reading back the bits of x yields x modulo 2^n.
pub proof fn lemma_bits_val_of_nth_bits(bits: Seq<u8>, start: int, n: nat, x: int)
    requires
        0 <= x,
        0 <= start,
        start + n <= bits.len(),
        forall|j: int| 0 <= j < n ==> #[trigger] bits[start + j] == nth_bit(x, j as nat),
    ensures
        bits_val(bits, start, n) == x % pow2(n) as int,
    decreases n,
{
    if n == 0 {
        lemma2_to64();
        lemma_mod_bound(x, 1);
    } else {
        let x2 = x / 2;
        lemma_div_pos_is_pos(x, 2);
        assert forall|j: int| 0 <= j < n - 1 implies #[trigger] bits[start + 1 + j] == nth_bit(
            x2,
            j as nat,
        ) by {
            assert(bits[start + (j + 1)] == nth_bit(x, (j + 1) as nat));
            lemma_nth_bit_shift(x, j as nat);
        };
        lemma_bits_val_of_nth_bits(bits, start + 1, (n - 1) as nat, x2);
        assert(bits[start + 0] == nth_bit(x, 0));
        lemma_nth_bit_zero(x);
        lemma_pow2_unfold(n);
        lemma_pow2_pos((n - 1) as nat);
        lemma_breakdown(x, 2, pow2((n - 1) as nat) as int);
        assert(x % (2 * pow2((n - 1) as nat) as int) == 2 * ((x / 2) % pow2((n - 1) as nat) as int)
            + x % 2);
    }
}

/// Bit j of the value of n bits is the j-th of those bits.
pub proof fn lemma_nth_bit_of_bits_val(bits: Seq<u8>, start: int, n: nat, j: nat)
    requires
        0 <= start,
        start + n <= bits.len(),
        all_bits(bits),
        j < n,
    ensures
        nth_bit(bits_val(bits, start, n), j) == bits[start + j],
    decreases j,
{
    let v = bits_val(bits, start, n);
    let rest = bits_val(bits, start + 1, (n - 1) as nat);
    lemma_bits_val_bound(bits, start + 1, (n - 1) as nat);
    assert(v == 2 * rest + bits[start]);
    lemma_fundamental_div_mod_converse(v, 2, rest, bits[start] as int);
    if j == 0 {
        lemma_nth_bit_zero(v);
    } else {
        lemma_nth_bit_of_bits_val(bits, start + 1, (n - 1) as nat, (j - 1) as nat);
        lemma_nth_bit_shift(v, (j - 1) as nat);
        assert(v / 2 == rest);
    }
}

/// Decode_d inverts Encode_d on well-formed coefficients that fit in d
/// bits.
pub proof fn lemma_decode_encode_round_trip(coeffs: Seq<u16>, d: nat)
    requires
        poly_wf(coeffs),
        1 <= d <= 12,
        forall|c: int| 0 <= c < 256 ==> coeffs[c] < pow2(d),
    ensures
        spec_decode(spec_encode(coeffs, d), d) == coeffs,
{
    let cb = coeff_bits(coeffs, d);
    let enc = spec_encode(coeffs, d);
    assert forall|t: int| 0 <= t < 256 * d implies cb[t] <= 1 by {
        lemma_nth_bit_is_bit(coeffs[t / d as int] as int, (t % d as int) as nat);
    };
    assert(all_bits(cb));
    assert forall|i: int| 0 <= i < 32 * d implies enc[i] as int == bits_val(cb, 8 * i, 8) by {
        lemma_bits_val_bound(cb, 8 * i, 8);
        lemma2_to64();
    };
    // The bit stream of the encoded bytes is the coefficients' bit stream.
    assert forall|t: int| 0 <= t < 256 * d implies bytes_bits(enc)[t] == cb[t] by {
        let i = t / 8;
        let j = t % 8;
        lemma_fundamental_div_mod(t, 8);
        lemma_mod_bound(t, 8);
        lemma_div_pos_is_pos(t, 8);
        lemma_nth_bit_of_bits_val(cb, 8 * i, 8, j as nat);
        assert(nth_bit(bits_val(cb, 8 * i, 8), j as nat) == cb[8 * i + j]);
        assert(enc[i] as int == bits_val(cb, 8 * i, 8));
    };
    assert(bytes_bits(enc) =~= cb);
    // Each decoded coefficient reads back its own bits.
    assert forall|c: int| 0 <= c < 256 implies spec_decode(enc, d)[c] == coeffs[c] by {
        assert forall|j: int| 0 <= j < d implies #[trigger] cb[d * c + j] == nth_bit(
            coeffs[c] as int,
            j as nat,
        ) by {
            lemma_block_index(c, j, d as int, 256);
            lemma_fundamental_div_mod_converse(d * c + j, d as int, c, j);
        };
        lemma_mul_inequality(c + 1, 256, d as int);
        assert(d * c + d <= 256 * d) by (nonlinear_arith)
            requires (c + 1) * (d as int) <= 256 * (d as int);
        lemma_bits_val_of_nth_bits(cb, d * c, d, coeffs[c] as int);
        lemma_small_mod(coeffs[c] as nat, pow2(d));
        if d == 12 {
            lemma_small_mod(coeffs[c] as nat, Q as nat);
        }
    };
    assert(spec_decode(enc, d) =~= coeffs);
}

/// 2^e for e up to 13, as an executable value.
pub fn pow2_u32(e: usize) -> (r: u32)
    requires
        e <= 13,
    ensures
        r == pow2(e as nat),
{
    let mut r: u32 = 1;
    let mut j: usize = 0;
    proof {
        lemma2_to64();
    }
    while j < e
        invariant
            j <= e,
            e <= 13,
            r == pow2(j as nat),
            r <= 8192,
        decreases e - j,
    {
        proof {
            lemma_pow2_unfold((j + 1) as nat);
            if j + 1 < 13 {
                lemma_pow2_strictly_increases((j + 1) as nat, 13);
            }
            lemma2_to64();
        }
        r = r * 2;
        j += 1;
    }
    r
}

/// Spills a byte string into its little-endian bit stream.
pub fn to_bit_stream(input_bytes: &[u8]) -> (bits: Vec<u8>)
    ensures
        bits@ == bytes_bits(input_bytes@),
        bits@.len() == 8 * input_bytes@.len(),
        all_bits(bits@),
{
    let ghost sbg = bytes_bits(input_bytes@);
    let n = input_bytes.len();
    let mut bits: Vec<u8> = Vec::new();
    let mut i: usize = 0;
    while i < n
        invariant
            i <= n,
            n == input_bytes@.len(),
            sbg == bytes_bits(input_bytes@),
            bits@.len() == 8 * i,
            forall|t: int| 0 <= t < 8 * i ==> bits@[t] == sbg[t],
        decreases n - i,
    {
        let mut v: u8 = input_bytes[i];
        let mut j: usize = 0;
        proof {
            lemma2_to64();
            lemma_div_basics(v as int);
        }
        while j < 8
            invariant
                j <= 8,
                i < n,
                n == input_bytes@.len(),
                sbg == bytes_bits(input_bytes@),
                v == input_bytes@[i as int] as int / pow2(j as nat) as int,
                bits@.len() == 8 * i + j,
                forall|t: int| 0 <= t < 8 * i + j ==> bits@[t] == sbg[t],
            decreases 8 - j,
        {
            bits.push(v % 2);
            proof {
                let x = input_bytes@[i as int] as int;
                let t: int = 8 * i as int + j as int;
                lemma_fundamental_div_mod_converse(t, 8, i as int, j as int);
                assert(sbg[t] == nth_bit(x, j as nat) as u8);
                assert(v % 2 == nth_bit(x, j as nat));
                lemma_pow2_pos(j as nat);
                lemma_div_denominator(x, pow2(j as nat) as int, 2);
                lemma_pow2_unfold((j + 1) as nat);
                assert(x / pow2(j as nat) as int / 2 == x / pow2((j + 1) as nat) as int);
            }
            v = v / 2;
            j += 1;
        }
        i += 1;
    }
    proof {
        assert(bits@ =~= sbg);
        assert forall|t: int| 0 <= t < bits@.len() implies bits@[t] <= 1 by {
            lemma_nth_bit_is_bit(input_bytes@[t / 8] as int, (t % 8) as nat);
        };
    }
    bits
}

impl Ring {
    /// Packs the low d bits of each of the 256 coefficients little-endian
    /// into 32 * d bytes.
    pub fn encode(&self, d: usize) -> (r: Vec<u8>)
        requires
            self.wf(),
            1 <= d <= 12,
        ensures
            r@ == spec_encode(self.coefficients@, d as nat),
            r@.len() == 32 * d,
    {
        let ghost cbg = coeff_bits(self.coefficients@, d as nat);
        // Phase 1: spill each coefficient into its d bits.
        let mut bits: Vec<u8> = Vec::new();
        let mut c: usize = 0;
        while c < 256
            invariant
                c <= 256,
                1 <= d <= 12,
                self.wf(),
                cbg == coeff_bits(self.coefficients@, d as nat),
                bits@.len() == c * d,
                forall|t: int| 0 <= t < c * d ==> bits@[t] == cbg[t],
            decreases 256 - c,
        {
            let mut v: u16 = self.coefficients[c];
            let mut j: usize = 0;
            proof {
                lemma2_to64();
                lemma_div_basics(v as int);
            }
            while j < d
                invariant
                    j <= d,
                    1 <= d <= 12,
                    c < 256,
                    self.wf(),
                    cbg == coeff_bits(self.coefficients@, d as nat),
                    v == self.coefficients@[c as int] as int / pow2(j as nat) as int,
                    bits@.len() == c * d + j,
                    forall|t: int| 0 <= t < c * d + j ==> bits@[t] == cbg[t],
                decreases d - j,
            {
                bits.push((v % 2) as u8);
                proof {
                    let x = self.coefficients@[c as int] as int;
                    let t: int = c as int * d as int + j as int;
                    lemma_block_index(c as int, j as int, d as int, 256);
                    lemma_fundamental_div_mod_converse(t, d as int, c as int, j as int);
                    assert(cbg[t] == nth_bit(x, j as nat) as u8);
                    assert(v % 2 == nth_bit(x, j as nat));
                    lemma_pow2_pos(j as nat);
                    lemma_div_denominator(x, pow2(j as nat) as int, 2);
                    lemma_pow2_unfold((j + 1) as nat);
                    assert(x / pow2(j as nat) as int / 2 == x / pow2((j + 1) as nat) as int);
                }
                v = v / 2;
                j += 1;
            }
            proof {
                assert(c as int * d as int + d as int == (c as int + 1) * d as int)
                    by (nonlinear_arith);
            }
            c += 1;
        }
        proof {
            assert(bits@ =~= cbg);
            assert forall|t: int| 0 <= t < 256 * d implies cbg[t] <= 1 by {
                lemma_nth_bit_is_bit(
                    self.coefficients@[t / d as int] as int,
                    (t % d as int) as nat,
                );
            };
        }
        // Phase 2: pack each group of 8 bits into one byte.
        let mut out: Vec<u8> = Vec::new();
        let mut i: usize = 0;
        let total: usize = 32 * d;
        while i < total
            invariant
                i <= total,
                total == 32 * d,
                1 <= d <= 12,
                bits@ == cbg,
                bits@.len() == 256 * d,
                all_bits(bits@),
                out@.len() == i,
                forall|t: int| 0 <= t < i ==> out@[t] as int == bits_val(cbg, 8 * t, 8),
            decreases total - i,
        {
            let mut acc: u16 = 0;
            let mut j: usize = 8;
            proof {
                lemma2_to64();
            }
            while j > 0
                invariant
                    j <= 8,
                    i < total,
                    total == 32 * d,
                    1 <= d <= 12,
                    bits@ == cbg,
                    bits@.len() == 256 * d,
                    all_bits(bits@),
                    acc as int == bits_val(cbg, 8 * i + j, (8 - j) as nat),
                    acc < pow2((8 - j) as nat),
                decreases j,
            {
                j -= 1;
                proof {
                    lemma_pow2_unfold((8 - j) as nat);
                    lemma2_to64();
                }
                acc = acc * 2 + bits[8 * i + j] as u16;
                proof {
                    lemma_bits_val_bound(cbg, 8 * i + j, (8 - j) as nat);
                }
            }
            proof {
                lemma2_to64();
                assert(acc < 256);
            }
            out.push(acc as u8);
            i += 1;
        }
        proof {
            assert(out@ =~= spec_encode(self.coefficients@, d as nat));
        }
        out
    }

    /// Unpacks 32 * d bytes into 256 coefficients of d bits each, reduced
    /// modulo q at d = 12, and tags the result with the given domain.
    /// Fails exactly when the byte string has the wrong length.
    pub fn decode(input_bytes: &[u8], d: usize, is_ntt: bool) -> (r: Result<Ring, MlKemError>)
        requires
            1 <= d <= 12,
        ensures
            r is Ok <==> input_bytes@.len() == 32 * d,
            r matches Ok(ring) ==> {
                &&& ring.wf()
                &&& ring.coefficients@ == spec_decode(input_bytes@, d as nat)
                &&& ring.is_ntt == is_ntt
                &&& forall|i: int| 0 <= i < 256 ==> ring.coefficients@[i] < pow2(d as nat)
            },
            r matches Err(e) ==> e == MlKemError::InvalidLength,
    {
        if input_bytes.len() != 32 * d {
            return Err(MlKemError::InvalidLength);
        }
        let ghost sbg = bytes_bits(input_bytes@);
        let bits: Vec<u8> = to_bit_stream(input_bytes);
        // Phase 2: read each coefficient's d bits.
        let mut coefficients: Vec<u16> = Vec::new();
        let mut c: usize = 0;
        while c < 256
            invariant
                c <= 256,
                1 <= d <= 12,
                input_bytes@.len() == 32 * d,
                bits@ == sbg,
                sbg == bytes_bits(input_bytes@),
                bits@.len() == 256 * d,
                all_bits(bits@),
                coefficients@.len() == c,
                forall|t: int| 0 <= t < c ==> coefficients@[t] == spec_decode(
                    input_bytes@,
                    d as nat,
                )[t],
                forall|t: int| 0 <= t < c ==> coefficients@[t] < pow2(d as nat),
                forall|t: int| 0 <= t < c ==> coefficients@[t] < Q,
            decreases 256 - c,
        {
            let mut acc: u32 = 0;
            let mut j: usize = d;
            proof {
                lemma2_to64();
            }
            while j > 0
                invariant
                    j <= d,
                    1 <= d <= 12,
                    c < 256,
                    bits@ == sbg,
                    bits@.len() == 256 * d,
                    all_bits(bits@),
                    acc as int == bits_val(sbg, d * c + j, (d - j) as nat),
                    acc < pow2((d - j) as nat),
                decreases j,
            {
                j -= 1;
                proof {
                    lemma_pow2_unfold((d - j) as nat);
                    lemma_pow2_strictly_increases((d - j) as nat, 13);
                    lemma2_to64();
                    lemma_block_index(c as int, j as int, d as int, 256);
                }
                acc = acc * 2 + bits[d * c + j] as u32;
                proof {
                    lemma_mul_inequality(c as int + 1, 256, d as int);
                    assert(d as int * c as int + d as int <= 256 * d as int) by (nonlinear_arith)
                        requires (c as int + 1) * (d as int) <= 256 * (d as int);
                    lemma_bits_val_bound(sbg, d * c + j, (d - j) as nat);
                }
            }
            proof {
                lemma_pow2_strictly_increases(d as nat, 13);
                lemma2_to64();
                assert(acc as int == bits_val(sbg, d as int * c as int, d as nat));
            }
            let coeff: u32 = if d == 12 {
                acc % (Q as u32)
            } else {
                acc
            };
            proof {
                if d != 12 {
                    lemma_pow2_strictly_increases(d as nat, 12);
                    lemma2_to64();
                }
                assert(coeff as u16 == spec_decode(input_bytes@, d as nat)[c as int]);
            }
            coefficients.push(coeff as u16);
            c += 1;
        }
        let r = Ring { coefficients, is_ntt };
        proof {
            assert(r.coefficients@ =~= spec_decode(input_bytes@, d as nat));
        }
        Ok(r)
    }

    /// Rounds each coefficient to d bits: x maps to round((2^d / q) * x)
    /// mod 2^d. The domain tag is preserved.
    pub fn compress(&self, d: u8) -> (r: Ring)
        requires
            self.wf(),
            1 <= d <= 11,
        ensures
            r.wf(),
            r.is_ntt == self.is_ntt,
            r.coefficients@ == spec_compress(self.coefficients@, d as nat),
    {
        let p_half = pow2_u32((d + 1) as usize);
        let p = pow2_u32(d as usize);
        proof {
            lemma_pow2_strictly_increases((d + 1) as nat, 13);
            lemma_pow2_pos(d as nat);
            lemma_pow2_pos((d + 1) as nat);
            if d < 11 {
                lemma_pow2_strictly_increases(d as nat, 11);
            }
            lemma2_to64();
        }
        let mut out: Vec<u16> = Vec::new();
        let mut i: usize = 0;
        while i < 256
            invariant
                i <= 256,
                1 <= d <= 11,
                self.wf(),
                p_half == pow2((d + 1) as nat),
                p == pow2(d as nat),
                p_half <= 4096,
                1 <= p <= 2048,
                out@.len() == i,
                forall|j: int| 0 <= j < i ==> out@[j] == spec_compress_coeff(
                    self.coefficients@[j],
                    d as nat,
                ),
                forall|j: int| 0 <= j < i ==> out@[j] < Q,
            decreases 256 - i,
        {
            let x: u32 = self.coefficients[i] as u32;
            proof {
                lemma_mul_upper(p_half as int, x as int, 4096, 3328);
            }
            let v: u32 = ((p_half * x + Q as u32) / (2 * Q as u32)) % p;
            out.push(v as u16);
            i += 1;
        }
        let r = Ring { coefficients: out, is_ntt: self.is_ntt };
        proof {
            assert(r.coefficients@ =~= spec_compress(self.coefficients@, d as nat));
        }
        r
    }

    /// The approximate inverse of compression: y maps to
    /// round((q / 2^d) * y). The domain tag is preserved.
    pub fn decompress(&self, d: u8) -> (r: Ring)
        requires
            self.wf(),
            1 <= d <= 11,
            forall|i: int| 0 <= i < 256 ==> self.coefficients@[i] < pow2(d as nat),
        ensures
            r.wf(),
            r.is_ntt == self.is_ntt,
            r.coefficients@ == spec_decompress(self.coefficients@, d as nat),
    {
        let p_half = pow2_u32((d + 1) as usize);
        let p = pow2_u32(d as usize);
        proof {
            lemma_pow2_strictly_increases((d + 1) as nat, 13);
            lemma_pow2_pos(d as nat);
            lemma_pow2_pos((d + 1) as nat);
            lemma2_to64();
        }
        let mut out: Vec<u16> = Vec::new();
        let mut i: usize = 0;
        while i < 256
            invariant
                i <= 256,
                1 <= d <= 11,
                self.wf(),
                forall|j: int| 0 <= j < 256 ==> self.coefficients@[j] < pow2(d as nat),
                p_half == pow2((d + 1) as nat),
                p == pow2(d as nat),
                2 <= p_half <= 4096,
                1 <= p <= 2048,
                out@.len() == i,
                forall|j: int| 0 <= j < i ==> out@[j] == spec_decompress_coeff(
                    self.coefficients@[j],
                    d as nat,
                ),
                forall|j: int| 0 <= j < i ==> out@[j] < Q,
            decreases 256 - i,
        {
            let y: u32 = self.coefficients[i] as u32;
            let v: u32 = (2 * Q as u32 * y + p) / p_half;
            proof {
                let yi = y as int;
                let pd = pow2(d as nat) as int;
                let ph = pow2((d + 1) as nat) as int;
                lemma_pow2_unfold((d + 1) as nat);
                assert(ph == 2 * pd);
                assert(2 * (Q as int) * yi + pd < (Q as int) * ph) by {
                    lemma_mul_inequality(yi, pd - 1, 2 * (Q as int));
                    assert(2 * (Q as int) * (pd - 1) == 2 * (Q as int) * pd - 2 * (Q as int))
                        by (nonlinear_arith);
                    assert((Q as int) * ph == 2 * (Q as int) * pd) by (nonlinear_arith)
                        requires ph == 2 * pd;
                };
                assert(2 * (Q as int) * yi + pd < ph * (Q as int)) by (nonlinear_arith)
                    requires 2 * (Q as int) * yi + pd < (Q as int) * ph;
                lemma_multiply_divide_lt(2 * (Q as int) * yi + pd, ph, Q as int);
                assert((2 * (Q as int) * yi + pd) / ph < Q);
                assert(v < Q);
            }
            out.push(v as u16);
            i += 1;
        }
        let r = Ring { coefficients: out, is_ntt: self.is_ntt };
        proof {
            assert(r.coefficients@ =~= spec_decompress(self.coefficients@, d as nat));
        }
        r
    }
}

} // verus!
