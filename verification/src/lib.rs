//! ML-KEM (FIPS 203): the module-lattice key-encapsulation mechanism in
//! the three standard parameter sets, built on the polynomial ring
//! R_q = Z_q[x]/(x^256 + 1) with q = 3329 and verified down to the byte
//! layout of keys and ciphertexts.

use vstd::prelude::*;

use rand::rngs::OsRng;
use rand::RngCore;

mod codec;
mod errors;
mod hashes;
mod laws;
mod matrix;
mod module;
mod ntt;
mod ntt_laws;
mod products;
mod ring;
mod sampling;

pub use codec::spec_compress;
pub use codec::spec_decode;
pub use codec::spec_decompress;
pub use codec::spec_encode;
pub use errors::MlKemError;
pub use hashes::sha3_256_of;
pub use hashes::sha3_512_of;
pub use hashes::shake128_prefix;
pub use hashes::shake256_prefix;
pub use laws::lemma_dot_distributes;
pub use laws::lemma_dot_identity;
pub use laws::lemma_dot_zero;
pub use laws::lemma_mat_mul_distributes_module;
pub use laws::lemma_mat_mul_identity_module;
pub use laws::lemma_mat_mul_zero_module;
pub use laws::spec_one_poly;
pub use matrix::Matrix;
pub use module::spec_dot;
pub use module::storage_cells;
pub use module::spec_encode_each;
pub use module::Module;
pub use codec::lemma_decode_encode_round_trip;
pub use ntt_laws::lemma_inv_ntt_of_ntt;
pub use ntt_laws::lemma_ntt_of_inv_ntt;
pub use ntt_laws::spec_scale_mul;
pub use ntt::spec_inv_ntt;
pub use ntt::spec_ntt;
pub use ring::spec_add_poly;
pub use ring::spec_sub_poly;
pub use ring::Ring;
pub use sampling::sample_complete;
pub use sampling::spec_cbd;
pub use sampling::spec_sample;
pub use sampling::spec_sample_scan;

use vstd::arithmetic::div_mod::lemma_basic_div;
use vstd::arithmetic::div_mod::lemma_fundamental_div_mod;
use vstd::arithmetic::div_mod::lemma_mod_bound;
use vstd::arithmetic::div_mod::lemma_small_mod;

use codec::lemma_mul_upper;
use hashes::sha3_256;
use hashes::sha3_512;
use hashes::shake128;
use hashes::shake256;

verus! {

/// The three standard parameter sets.
#[derive(Clone, Copy, Debug)]
pub enum Type {
    MlKem512,
    MlKem768,
    MlKem1024,
}

/// An ML-KEM instance: the module rank k, the two binomial parameters
/// and the two ciphertext compression widths of one parameter set.
#[derive(Debug)]
pub struct MLKem {
    pub k: u8,
    pub eta_1: u8,
    pub eta_2: u8,
    pub du: u8,
    pub dv: u8,
}

/// The concatenation of two byte strings.
pub fn concat_bytes(a: &[u8], b: &[u8]) -> (r: Vec<u8>)
    ensures
        r@ == a@ + b@,
{
    let mut out: Vec<u8> = Vec::new();
    let mut i: usize = 0;
    while i < a.len()
        invariant
            i <= a@.len(),
            out@ =~= a@.take(i as int),
        decreases a@.len() - i,
    {
        out.push(a[i]);
        i += 1;
    }
    let mut j: usize = 0;
    while j < b.len()
        invariant
            j <= b@.len(),
            out@ =~= a@ + b@.take(j as int),
        decreases b@.len() - j,
    {
        out.push(b[j]);
        j += 1;
    }
    proof {
        assert(out@ =~= a@ + b@);
    }
    out
}

/// Constant-time selection: byte i of the result is
/// a[i] XOR (mask AND (a[i] XOR b[i])), with the mask all ones exactly
/// when the condition holds, so no output byte depends on a branch.
/// Fails exactly when the two strings differ in length.
pub fn select_bytes(a: &[u8], b: &[u8], cond: bool) -> (r: Result<Vec<u8>, MlKemError>)
    ensures
        r is Ok <==> a@.len() == b@.len(),
        r matches Ok(v) ==> {
            &&& v@.len() == a@.len()
            &&& forall|i: int| 0 <= i < a@.len() ==> v@[i] == (if cond {
                b@[i]
            } else {
                a@[i]
            })
        },
        r matches Err(e) ==> e == MlKemError::LengthMismatch,
{
    if a.len() != b.len() {
        return Err(MlKemError::LengthMismatch);
    }
    let cw: u8 = if cond {
        255
    } else {
        0
    };
    let mut out: Vec<u8> = Vec::new();
    let mut i: usize = 0;
    while i < a.len()
        invariant
            i <= a@.len(),
            a@.len() == b@.len(),
            cw == (if cond {
                255u8
            } else {
                0u8
            }),
            out@.len() == i,
            forall|t: int| 0 <= t < i ==> out@[t] == (if cond {
                b@[t]
            } else {
                a@[t]
            }),
        decreases a@.len() - i,
    {
        let x: u8 = a[i];
        let y: u8 = b[i];
        proof {
            assert(x ^ (255u8 & (x ^ y)) == y) by (bit_vector);
            assert(x ^ (0u8 & (x ^ y)) == x) by (bit_vector);
        }
        out.push(x ^ (cw & (x ^ y)));
        i += 1;
    }
    Ok(out)
}

/// Constant-time byte-string equality: the XOR of every byte pair is
/// folded into one accumulator with no early exit; strings of different
/// length compare unequal.
pub fn bytes_equal_ct(a: &[u8], b: &[u8]) -> (r: bool)
    ensures
        r == (a@ == b@),
{
    if a.len() != b.len() {
        return false;
    }
    let mut acc: u8 = 0;
    let mut i: usize = 0;
    while i < a.len()
        invariant
            i <= a@.len(),
            a@.len() == b@.len(),
            (acc == 0) <==> (forall|t: int| 0 <= t < i ==> a@[t] == b@[t]),
        decreases a@.len() - i,
    {
        let x: u8 = a[i];
        let y: u8 = b[i];
        proof {
            assert((acc | (x ^ y)) == 0 <==> (acc == 0 && x == y)) by (bit_vector);
        }
        acc = acc | (x ^ y);
        i += 1;
    }
    proof {
        if acc == 0 {
            assert(a@ =~= b@);
        }
    }
    acc == 0
}

impl MLKem {
    /// The parameters belong to one of the three standard sets.
    pub open spec fn wf(self) -> bool {
        ||| (self.k == 2 && self.eta_1 == 3 && self.eta_2 == 2 && self.du == 10 && self.dv == 4)
        ||| (self.k == 3 && self.eta_1 == 2 && self.eta_2 == 2 && self.du == 10 && self.dv == 4)
        ||| (self.k == 4 && self.eta_1 == 2 && self.eta_2 == 2 && self.du == 11 && self.dv == 5)
    }

    /// The instance for the chosen parameter set.
    pub fn new(type_of: Type) -> (r: MLKem)
        ensures
            r.wf(),
            type_of is MlKem512 ==> r.k == 2 && r.eta_1 == 3 && r.eta_2 == 2 && r.du == 10
                && r.dv == 4,
            type_of is MlKem768 ==> r.k == 3 && r.eta_1 == 2 && r.eta_2 == 2 && r.du == 10
                && r.dv == 4,
            type_of is MlKem1024 ==> r.k == 4 && r.eta_1 == 2 && r.eta_2 == 2 && r.du == 11
                && r.dv == 5,
    {
        match type_of {
            Type::MlKem512 => MLKem { k: 2, eta_1: 3, eta_2: 2, du: 10, dv: 4 },
            Type::MlKem768 => MLKem { k: 3, eta_1: 2, eta_2: 2, du: 10, dv: 4 },
            Type::MlKem1024 => MLKem { k: 4, eta_1: 2, eta_2: 2, du: 11, dv: 5 },
        }
    }

    /// Relies on rand::rngs::OsRng fill_bytes: fills the whole buffer
    /// with operating-system randomness (and panics only if the OS
    /// random source itself fails).
    #[verifier::external_body]
    fn random_bytes(length: usize) -> (r: Vec<u8>)
        ensures
            r@.len() == length,
    {
        let mut bytes = vec![0u8; length];
        OsRng.fill_bytes(&mut bytes);
        bytes
    }

    /// G: the SHA3-512 digest of the input, split in two 32-byte halves.
    fn _g(s: &[u8]) -> (r: (Vec<u8>, Vec<u8>))
        ensures
            r.0@ == sha3_512_of(s@).take(32),
            r.1@ == sha3_512_of(s@).skip(32),
            r.0@.len() == 32,
            r.1@.len() == 32,
    {
        let digest = sha3_512(s);
        let mut lo: Vec<u8> = Vec::new();
        let mut i: usize = 0;
        while i < 32
            invariant
                i <= 32,
                digest@ == sha3_512_of(s@),
                digest@.len() == 64,
                lo@.len() == i,
                forall|t: int| 0 <= t < i ==> lo@[t] == digest@[t],
            decreases 32 - i,
        {
            lo.push(digest[i]);
            i += 1;
        }
        let mut hi: Vec<u8> = Vec::new();
        let mut j: usize = 32;
        while j < 64
            invariant
                32 <= j <= 64,
                digest@ == sha3_512_of(s@),
                digest@.len() == 64,
                hi@.len() == j - 32,
                forall|t: int| 0 <= t < j - 32 ==> hi@[t] == digest@[t + 32],
            decreases 64 - j,
        {
            hi.push(digest[j]);
            j += 1;
        }
        proof {
            assert(lo@ =~= sha3_512_of(s@).take(32));
            assert(hi@ =~= sha3_512_of(s@).skip(32));
        }
        (lo, hi)
    }

    /// H: the SHA3-256 digest of the input.
    fn _h(s: &[u8]) -> (r: Vec<u8>)
        ensures
            r@ == sha3_256_of(s@),
            r@.len() == 32,
    {
        sha3_256(s)
    }

    /// J: 32 bytes of SHAKE-256 output of the input.
    fn _j(s: &[u8]) -> (r: Vec<u8>)
        ensures
            r@ == shake256_prefix(s@, 32),
            r@.len() == 32,
    {
        shake256(s, 32)
    }

    /// The XOF: outlen bytes of SHAKE-128 output of the seed with the two
    /// index bytes appended.
    fn _xof(b: &[u8], i: u8, j: u8, outlen: usize) -> (r: Vec<u8>)
        ensures
            r@ == shake128_prefix(b@.push(i).push(j), outlen as nat),
            r@.len() == outlen,
    {
        let mut pre = concat_bytes(b, &[]);
        pre.push(i);
        pre.push(j);
        proof {
            assert(pre@ =~= b@.push(i).push(j));
        }
        shake128(pre.as_slice(), outlen)
    }

    /// The PRF with parameter eta: 64 * eta bytes of SHAKE-256 output of
    /// the seed with the counter byte appended.
    fn _prf(eta: u8, s: &[u8], b: u8) -> (r: Vec<u8>)
        requires
            1 <= eta <= 3,
        ensures
            r@ == shake256_prefix(s@.push(b), (64 * eta) as nat),
            r@.len() == 64 * eta,
    {
        let mut pre = concat_bytes(s, &[]);
        pre.push(b);
        proof {
            assert(pre@ =~= s@.push(b));
        }
        shake256(pre.as_slice(), 64 * (eta as usize))
    }
}

/// The matrix cell drawn by uniform rejection sampling from the
/// SHAKE-128 stream of a seed: the scan of any stream prefix long enough
/// to fill all 256 coefficients. Every such prefix yields the same scan,
/// so the cell is a function of the seed alone.
pub open spec fn sampled_poly(seed: Seq<u8>) -> Seq<u16> {
    let n = choose|n: nat| sample_complete(shake128_prefix(seed, n));
    spec_sample(shake128_prefix(seed, n))
}

/// Extending a byte string beyond a point where the rejection-sampling
/// scan is already complete does not change the scan.
pub proof fn lemma_sample_scan_extend(s1: Seq<u8>, s2: Seq<u8>, i: int, acc: Seq<u16>)
    requires
        0 <= i,
        s1.len() <= s2.len(),
        forall|t: int| 0 <= t < s1.len() ==> s1[t] == s2[t],
        spec_sample_scan(s1, i, acc).len() == 256,
    ensures
        spec_sample_scan(s2, i, acc) == spec_sample_scan(s1, i, acc),
    decreases s2.len() - i,
{
    if acc.len() >= 256 {
    } else if i + 3 > s1.len() {
        assert(spec_sample_scan(s1, i, acc) == acc);
        assert(false);
    } else {
        let d1 = s1[i] + 256 * (s1[i + 1] % 16);
        let d2 = s1[i + 1] / 16 + 16 * s1[i + 2];
        let acc1 = if d1 < crate::ring::Q {
            acc.push(d1 as u16)
        } else {
            acc
        };
        let acc2 = if d2 < crate::ring::Q && acc1.len() < 256 {
            acc1.push(d2 as u16)
        } else {
            acc1
        };
        assert(spec_sample_scan(s1, i, acc) == spec_sample_scan(s1, i + 3, acc2));
        assert(spec_sample_scan(s2, i, acc) == spec_sample_scan(s2, i + 3, acc2));
        lemma_sample_scan_extend(s1, s2, i + 3, acc2);
    }
}

/// Any stream prefix whose scan is complete pins the sampled cell down.
pub proof fn lemma_sampled_poly_from_prefix(seed: Seq<u8>, n: nat)
    requires
        sample_complete(shake128_prefix(seed, n)),
    ensures
        sampled_poly(seed) == spec_sample(shake128_prefix(seed, n)),
        sampled_poly(seed).len() == 256,
{
    assert(exists|m: nat| sample_complete(shake128_prefix(seed, m))) by {
        assert(sample_complete(shake128_prefix(seed, n)));
    };
    let n0 = choose|m: nat| sample_complete(shake128_prefix(seed, m));
    let p = shake128_prefix(seed, n);
    let p0 = shake128_prefix(seed, n0);
    if n0 <= n {
        lemma_sample_scan_extend(p0, p, 0, Seq::empty());
    } else {
        lemma_sample_scan_extend(p, p0, 0, Seq::empty());
    }
}

/// The XOF byte budget for sampling one matrix cell: two pulls, the
/// 840 bytes that fill a cell except with negligible probability, then
/// one hundred times as much.
pub const SAMPLE_CAP: usize = 84000;

/// The cell's XOF stream fills all 256 coefficients within the budget.
pub open spec fn cell_samplable(seed: Seq<u8>) -> bool {
    sample_complete(shake128_prefix(seed, SAMPLE_CAP as nat))
}

/// Every cell of the k x k matrix drawn from rho is samplable within the
/// budget. The set of cell seeds is the same on the key-generation and
/// the encryption path.
pub open spec fn matrix_samplable(k: int, rho: Seq<u8>) -> bool {
    forall|i: int, j: int|
        0 <= i < k && 0 <= j < k ==> cell_samplable(#[trigger] rho.push(j as u8).push(i as u8))
}

impl MLKem {
    /// One matrix cell: pulls 840 bytes of the seed's XOF stream, then
    /// the whole budget when rejection leaves the element underfilled,
    /// and fails only when even the budget does not fill it.
    fn _sample_cell(rho: &[u8], a: u8, b: u8) -> (r: Result<Ring, MlKemError>)
        ensures
            r is Ok <==> cell_samplable(rho@.push(a).push(b)),
            r matches Ok(ring) ==> {
                &&& ring.wf()
                &&& ring.is_ntt == true
                &&& ring.coefficients@ == sampled_poly(rho@.push(a).push(b))
            },
            r matches Err(e) ==> e == MlKemError::SamplingExhausted,
    {
        let ghost seed = rho@.push(a).push(b);
        let bytes = Self::_xof(rho, a, b, 840);
        match Ring::ntt_sample(bytes.as_slice()) {
            Some(ring) => {
                proof {
                    lemma_sample_scan_extend(
                        shake128_prefix(seed, 840),
                        shake128_prefix(seed, SAMPLE_CAP as nat),
                        0,
                        Seq::empty(),
                    );
                    lemma_sampled_poly_from_prefix(seed, 840);
                }
                Ok(ring)
            },
            None => {
                let more = Self::_xof(rho, a, b, SAMPLE_CAP);
                match Ring::ntt_sample(more.as_slice()) {
                    Some(ring) => {
                        proof {
                            lemma_sampled_poly_from_prefix(seed, SAMPLE_CAP as nat);
                        }
                        Ok(ring)
                    },
                    None => Err(MlKemError::SamplingExhausted),
                }
            },
        }
    }

    /// Builds the k x k NTT-domain matrix: storage cell (i, j) is sampled
    /// from the XOF stream of rho with the bytes j and i appended, in
    /// that order; the transpose flag selects the encryption-side view.
    /// Fails only when a cell exhausts the sampling budget.
    fn _generate_matrix_from_seed(&self, rho: &[u8], transpose: bool) -> (r: Result<
        Module,
        MlKemError,
    >)
        requires
            self.wf(),
        ensures
            r is Ok <==> matrix_samplable(self.k as int, rho@),
            r matches Ok(m) ==> {
                &&& m.wf()
                &&& m.transpose == transpose
                &&& m.rows() == self.k as int
                &&& m.cols() == self.k as int
                &&& m.domain() == true
                &&& (!transpose ==> forall|i: int, j: int|
                    0 <= i < self.k as int && 0 <= j < self.k as int ==> #[trigger] m.entry_coeffs(
                        i,
                        j,
                    ) == sampled_poly(rho@.push(j as u8).push(i as u8)))
                &&& (transpose ==> forall|i: int, j: int|
                    0 <= i < self.k as int && 0 <= j < self.k as int ==> #[trigger] m.entry_coeffs(
                        i,
                        j,
                    ) == sampled_poly(rho@.push(i as u8).push(j as u8)))
            },
            r matches Err(e) ==> e == MlKemError::SamplingExhausted,
    {
        let k: usize = self.k as usize;
        let mut data: Vec<Vec<Ring>> = Vec::new();
        let mut i: usize = 0;
        while i < k
            invariant
                i <= k,
                2 <= k <= 4,
                k == self.k as usize,
                data@.len() == i,
                forall|r: int| 0 <= r < i ==> (#[trigger] data@[r])@.len() == k,
                forall|r: int, c: int| 0 <= r < i && 0 <= c < k ==> (
                #[trigger] data@[r]@[c]).wf(),
                forall|r: int, c: int| 0 <= r < i && 0 <= c < k ==> (
                #[trigger] data@[r]@[c]).is_ntt == true,
                forall|r: int, c: int|
                    0 <= r < i && 0 <= c < k ==> (#[trigger] data@[r]@[c]).coefficients@
                        == sampled_poly(rho@.push(c as u8).push(r as u8)),
                forall|r: int, c: int|
                    0 <= r < i && 0 <= c < k ==> cell_samplable(
                        #[trigger] rho@.push(c as u8).push(r as u8),
                    ),
            decreases k - i,
        {
            let mut row: Vec<Ring> = Vec::new();
            let mut j: usize = 0;
            while j < k
                invariant
                    j <= k,
                    i < k,
                    2 <= k <= 4,
                    k == self.k as usize,
                    row@.len() == j,
                    forall|c: int| 0 <= c < j ==> (#[trigger] row@[c]).wf(),
                    forall|c: int| 0 <= c < j ==> (#[trigger] row@[c]).is_ntt == true,
                    forall|c: int|
                        0 <= c < j ==> (#[trigger] row@[c]).coefficients@ == sampled_poly(
                            rho@.push(c as u8).push(i as u8),
                        ),
                    forall|c: int|
                        0 <= c < j ==> cell_samplable(
                            #[trigger] rho@.push(c as u8).push(i as u8),
                        ),
                decreases k - j,
            {
                let cell = match Self::_sample_cell(rho, j as u8, i as u8) {
                    Ok(cell) => cell,
                    Err(e) => {
                        proof {
                            let ii: int = i as int;
                            let jj: int = j as int;
                            if matrix_samplable(self.k as int, rho@) {
                                assert(cell_samplable(rho@.push(jj as u8).push(ii as u8)));
                                assert(jj as u8 == j as u8 && ii as u8 == i as u8);
                                assert(false);
                            }
                        }
                        return Err(e);
                    },
                };
                row.push(cell);
                j += 1;
            }
            data.push(row);
            i += 1;
        }
        let m = Module { data, transpose };
        Ok(m)
    }

    /// Draws k centered-binomial elements from the PRF at the counters
    /// n, n + 1, ..., n + k - 1, as a column vector in the normal domain,
    /// and returns the advanced counter.
    fn _generate_error_vector(&self, sigma: &[u8], eta: u8, n: u8) -> (r: (Module, u8))
        requires
            self.wf(),
            1 <= eta <= 3,
            n as int + self.k as int <= 255,
        ensures
            r.1 == n + self.k,
            r.0.wf(),
            r.0.transpose == true,
            r.0.rows() == self.k as int,
            r.0.cols() == 1,
            r.0.domain() == false,
            forall|i: int|
                0 <= i < self.k as int ==> #[trigger] r.0.entry_coeffs(i, 0) == spec_cbd(
                    shake256_prefix(sigma@.push((n + i) as u8), (64 * eta) as nat),
                    eta as nat,
                ),
    {
        let k: usize = self.k as usize;
        let mut elements: Vec<Ring> = Vec::new();
        let mut counter: u8 = n;
        let mut i: usize = 0;
        while i < k
            invariant
                i <= k,
                2 <= k <= 4,
                1 <= eta <= 3,
                n as int + k as int <= 255,
                counter as int == n as int + i as int,
                elements@.len() == i,
                forall|t: int| 0 <= t < i ==> (#[trigger] elements@[t]).wf(),
                forall|t: int| 0 <= t < i ==> (#[trigger] elements@[t]).is_ntt == false,
                forall|t: int|
                    0 <= t < i ==> (#[trigger] elements@[t]).coefficients@ == spec_cbd(
                        shake256_prefix(sigma@.push((n + t) as u8), (64 * eta) as nat),
                        eta as nat,
                    ),
            decreases k - i,
        {
            let prf_output = Self::_prf(eta, sigma, counter);
            let ring = Ring::cbd(prf_output.as_slice(), eta, false).unwrap();
            elements.push(ring);
            counter += 1;
            i += 1;
        }
        let mut data: Vec<Vec<Ring>> = Vec::new();
        data.push(elements);
        let m = Module { data, transpose: true };
        proof {
            assert forall|i2: int| 0 <= i2 < self.k as int implies #[trigger] m.entry_coeffs(
                i2,
                0,
            ) == spec_cbd(
                shake256_prefix(sigma@.push((n + i2) as u8), (64 * eta) as nat),
                eta as nat,
            ) by {
                assert(m.entry(i2, 0) == m.data@[0]@[i2]);
            };
        }
        (m, counter)
    }

    /// Draws one centered-binomial element from the PRF at counter n and
    /// returns the advanced counter.
    fn _generate_polynomial(&self, sigma: &[u8], eta: u8, n: u8) -> (r: (Ring, u8))
        requires
            1 <= eta <= 3,
            n < 255,
        ensures
            r.1 == n + 1,
            r.0.wf(),
            r.0.is_ntt == false,
            r.0.coefficients@ == spec_cbd(
                shake256_prefix(sigma@.push(n), (64 * eta) as nat),
                eta as nat,
            ),
    {
        let prf_output = Self::_prf(eta, sigma, n);
        let p = Ring::cbd(prf_output.as_slice(), eta, false).unwrap();
        (p, n + 1)
    }
}

/// The k coefficient sequences decoded from a byte string at d bits.
pub open spec fn spec_decode_vec(bytes: Seq<u8>, k: int, d: int) -> Seq<Seq<u16>> {
    Seq::new(k as nat, |i: int| spec_decode(bytes.subrange(32 * d * i, 32 * d * (i + 1)), d as nat))
}

/// Row i of the matrix A drawn from rho on the key-generation path: cell
/// (i, j) comes from the XOF seeded with rho, then byte j, then byte i.
pub open spec fn spec_a_row(rho: Seq<u8>, k: int, i: int) -> Seq<Seq<u16>> {
    Seq::new(k as nat, |j: int| sampled_poly(rho.push(j as u8).push(i as u8)))
}

/// Row i of the transposed matrix on the encryption path: the two index
/// bytes swap places.
pub open spec fn spec_at_row(rho: Seq<u8>, k: int, i: int) -> Seq<Seq<u16>> {
    Seq::new(k as nat, |j: int| sampled_poly(rho.push(i as u8).push(j as u8)))
}

/// The k centered-binomial draws at counters n, ..., n + k - 1.
pub open spec fn spec_cbd_vec(sigma: Seq<u8>, eta: int, n: int, k: int) -> Seq<Seq<u16>> {
    Seq::new(
        k as nat,
        |i: int| spec_cbd(shake256_prefix(sigma.push((n + i) as u8), (64 * eta) as nat), eta as nat),
    )
}

/// The same draws taken into the NTT domain.
pub open spec fn spec_cbd_vec_ntt(sigma: Seq<u8>, eta: int, n: int, k: int) -> Seq<Seq<u16>> {
    Seq::new(
        k as nat,
        |i: int| spec_ntt(
            spec_cbd(shake256_prefix(sigma.push((n + i) as u8), (64 * eta) as nat), eta as nat),
        ),
    )
}

/// K-PKE key generation from seed d: rho and sigma come from G, the
/// secret and error vectors from the PRF, and the keys are
/// Encode_12(A ·_ntt NTT(s) + NTT(e)) with rho appended, and
/// Encode_12(NTT(s)).
pub open spec fn spec_k_pke_keygen(k: int, eta1: int, d: Seq<u8>) -> (Seq<u8>, Seq<u8>) {
    let g = sha3_512_of(d.push(k as u8));
    let rho = g.take(32);
    let sigma = g.skip(32);
    let s_hat = spec_cbd_vec_ntt(sigma, eta1, 0, k);
    let e_hat = spec_cbd_vec_ntt(sigma, eta1, k, k);
    let t_hat = Seq::new(
        k as nat,
        |i: int| spec_add_poly(spec_dot(spec_a_row(rho, k, i), s_hat, k as nat, true), e_hat[i]),
    );
    (spec_encode_each(t_hat, 12) + rho, spec_encode_each(s_hat, 12))
}

impl MLKem {
    /// K-PKE key generation: derives rho and sigma from the seed, samples
    /// the matrix and the two error vectors, and returns the two encoded
    /// keys. Fails only when matrix sampling exhausts its budget.
    pub fn _k_pke_keygen(&self, d: &[u8]) -> (r: Result<(Vec<u8>, Vec<u8>), MlKemError>)
        requires
            self.wf(),
        ensures
            r is Ok <==> matrix_samplable(
                self.k as int,
                sha3_512_of(d@.push(self.k)).take(32),
            ),
            r matches Ok(p) ==> {
                &&& p.0@ == spec_k_pke_keygen(self.k as int, self.eta_1 as int, d@).0
                &&& p.1@ == spec_k_pke_keygen(self.k as int, self.eta_1 as int, d@).1
                &&& p.0@.len() == 384 * self.k as int + 32
                &&& p.1@.len() == 384 * self.k as int
            },
            r matches Err(e) ==> e == MlKemError::SamplingExhausted,
    {
        let ghost kk = self.k as int;
        let mut pre_image = concat_bytes(d, &[]);
        pre_image.push(self.k);
        proof {
            assert(pre_image@ =~= d@.push(self.k));
        }
        let (rho, sigma) = Self::_g(pre_image.as_slice());
        let a_hat = match self._generate_matrix_from_seed(rho.as_slice(), false) {
            Ok(m) => m,
            Err(e) => {
                return Err(e);
            },
        };
        let (s, n) = self._generate_error_vector(sigma.as_slice(), self.eta_1, 0);
        let (e, _n2) = self._generate_error_vector(sigma.as_slice(), self.eta_1, n);
        let s_hat = s.to_ntt();
        let e_hat = e.to_ntt();
        let sa_hat = a_hat.mat_mul(&s_hat).unwrap();
        let t_hat = sa_hat.add(&e_hat).unwrap();
        let t_bytes = t_hat.encode(12);
        let ek_pke = concat_bytes(t_bytes.as_slice(), rho.as_slice());
        let dk_pke = s_hat.encode(12);
        proof {
            let g = sha3_512_of(d@.push(self.k));
            let rhog = g.take(32);
            let sigmag = g.skip(32);
            let s_hat_g = spec_cbd_vec_ntt(sigmag, self.eta_1 as int, 0, kk);
            let e_hat_g = spec_cbd_vec_ntt(sigmag, self.eta_1 as int, kk, kk);
            let t_hat_g = Seq::new(
                kk as nat,
                |i: int| spec_add_poly(
                    spec_dot(spec_a_row(rhog, kk, i), s_hat_g, kk as nat, true),
                    e_hat_g[i],
                ),
            );
            assert(s_hat.col_coeffs(0) =~= s_hat_g);
            assert(e_hat.col_coeffs(0) =~= e_hat_g);
            assert forall|i: int| 0 <= i < kk implies #[trigger] t_hat.entry_coeffs(i, 0)
                == t_hat_g[i] by {
                assert(a_hat.row_coeffs(i) =~= spec_a_row(rhog, kk, i));
                assert(sa_hat.entry_coeffs(i, 0) == spec_dot(
                    a_hat.row_coeffs(i),
                    s_hat.col_coeffs(0),
                    kk as nat,
                    true,
                ));
            };
            // The storage cells of the two encoded vectors are their
            // logical columns.
            assert(storage_cells(t_hat) =~= t_hat_g) by {
                assert forall|t: int| 0 <= t < kk implies storage_cells(t_hat)[t]
                    == t_hat_g[t] by {
                    lemma_fundamental_div_mod(t, 1);
                    lemma_mod_bound(t, 1);
                    assert(t_hat.data@[t]@[0] == t_hat.entry(t, 0));
                    assert(t_hat.entry_coeffs(t, 0) == t_hat_g[t]);
                };
            };
            assert(storage_cells(s_hat) =~= s_hat_g) by {
                assert forall|t: int| 0 <= t < kk implies storage_cells(s_hat)[t]
                    == s_hat_g[t] by {
                    lemma_basic_div(t, kk);
                    lemma_small_mod(t as nat, kk as nat);
                    assert(s_hat.data@[0]@[t] == s_hat.entry(t, 0));
                    assert(s_hat.entry_coeffs(t, 0) == s_hat.col_coeffs(0)[t]);
                };
            };
            assert(ek_pke@ == spec_k_pke_keygen(kk, self.eta_1 as int, d@).0);
            assert(dk_pke@ == spec_k_pke_keygen(kk, self.eta_1 as int, d@).1);
        }
        Ok((ek_pke, dk_pke))
    }
}

/// K-PKE decryption: decode and decompress the two ciphertext parts,
/// recover w = v - InvNTT(s_hat * NTT(u)), and compress w to one bit per
/// coefficient.
pub open spec fn spec_k_pke_decrypt(k: int, du: int, dv: int, dk_pke: Seq<u8>, c: Seq<u8>) -> Seq<
    u8,
> {
    let c1 = c.take(32 * du * k);
    let c2 = c.skip(32 * du * k);
    let u = Seq::new(
        k as nat,
        |i: int| spec_decompress(
            spec_decode(c1.subrange(32 * du * i, 32 * du * (i + 1)), du as nat),
            du as nat,
        ),
    );
    let v = spec_decompress(spec_decode(c2, dv as nat), dv as nat);
    let s_hat = spec_decode_vec(dk_pke, k, 12);
    let u_hat = Seq::new(k as nat, |i: int| spec_ntt(u[i]));
    let w = spec_sub_poly(v, spec_inv_ntt(spec_dot(s_hat, u_hat, k as nat, true)));
    spec_encode(spec_compress(w, 1), 1)
}

/// The modulus check inside K-PKE encryption: the encoded vector at the
/// front of the encryption key must survive a decode/encode round trip
/// byte for byte, which fails exactly when a coefficient exceeded q - 1.
pub open spec fn spec_modulus_check(k: int, ek_pke: Seq<u8>) -> bool {
    spec_encode_each(spec_decode_vec(ek_pke.take(384 * k), k, 12), 12) == ek_pke.take(384 * k)
}

/// The inputs on which K-PKE encryption succeeds: a key of the right
/// length that passes the modulus check and whose matrix is samplable,
/// and a 32-byte message.
pub open spec fn spec_encrypt_ok(k: int, ek_pke: Seq<u8>, m: Seq<u8>) -> bool {
    &&& ek_pke.len() == 384 * k + 32
    &&& spec_modulus_check(k, ek_pke)
    &&& matrix_samplable(k, ek_pke.skip(384 * k))
    &&& m.len() == 32
}

/// K-PKE encryption of the 32-byte message m under the encryption key,
/// with all randomness drawn from the PRF seed r.
pub open spec fn spec_k_pke_encrypt(
    k: int,
    eta1: int,
    eta2: int,
    du: int,
    dv: int,
    ek_pke: Seq<u8>,
    m: Seq<u8>,
    r: Seq<u8>,
) -> Seq<u8> {
    let rho = ek_pke.skip(384 * k);
    let t_hat = spec_decode_vec(ek_pke.take(384 * k), k, 12);
    let y_hat = spec_cbd_vec_ntt(r, eta1, 0, k);
    let e1 = spec_cbd_vec(r, eta2, k, k);
    let e2 = spec_cbd(shake256_prefix(r.push((2 * k) as u8), (64 * eta2) as nat), eta2 as nat);
    let u = Seq::new(
        k as nat,
        |i: int| spec_add_poly(
            spec_inv_ntt(spec_dot(spec_at_row(rho, k, i), y_hat, k as nat, true)),
            e1[i],
        ),
    );
    let mu = spec_decompress(spec_decode(m, 1), 1);
    let v = spec_add_poly(
        spec_inv_ntt(spec_dot(t_hat, y_hat, k as nat, true)),
        spec_add_poly(e2, mu),
    );
    let c1 = spec_encode_each(Seq::new(k as nat, |i: int| spec_compress(u[i], du as nat)), du as nat);
    let c2 = spec_encode(spec_compress(v, dv as nat), dv as nat);
    c1 + c2
}

impl MLKem {
    /// K-PKE decryption: never fails on inputs of the documented lengths.
    pub fn _k_pke_decrypt(&self, dk_pke: &[u8], c: &[u8]) -> (r: Vec<u8>)
        requires
            self.wf(),
            dk_pke@.len() == 384 * self.k as int,
            c@.len() == 32 * (self.du as int * self.k as int + self.dv as int),
        ensures
            r@ == spec_k_pke_decrypt(
                self.k as int,
                self.du as int,
                self.dv as int,
                dk_pke@,
                c@,
            ),
            r@.len() == 32,
    {
        let ghost kk = self.k as int;
        let ghost duu = self.du as int;
        let k_us: usize = self.k as usize;
        proof {
            lemma_mul_upper(k_us as int, self.du as int, 4, 11);
        }
        let n: usize = k_us * self.du as usize * 32;
        proof {
            assert(k_us as int * (self.du as int) * 32 == 32 * duu * kk) by (nonlinear_arith)
                requires k_us as int == kk, self.du as int == duu;
        }
        let c_1: &[u8] = &c[0..n];
        let c_2: &[u8] = &c[n..c.len()];
        let u = Module::decode_vector(c_1, k_us, self.du as usize, false).unwrap().decompress(
            self.du,
        );
        let v = Ring::decode(c_2, self.dv as usize, false).unwrap().decompress(self.dv);
        let s_hat = Module::decode_vector(dk_pke, k_us, 12, true).unwrap();
        let u_hat = u.to_ntt();
        let w = v.sub(&(s_hat.dot(&u_hat).unwrap()).from_ntt());
        let r = w.compress(1).encode(1);
        proof {
            let c1g = c@.take(32 * duu * kk);
            let c2g = c@.skip(32 * duu * kk);
            let u_g = Seq::new(
                kk as nat,
                |i: int| spec_decompress(
                    spec_decode(c1g.subrange(32 * duu * i, 32 * duu * (i + 1)), duu as nat),
                    duu as nat,
                ),
            );
            let s_hat_g = spec_decode_vec(dk_pke@, kk, 12);
            let u_hat_g = Seq::new(kk as nat, |i: int| spec_ntt(u_g[i]));
            assert(c_1@ =~= c1g);
            assert(c_2@ =~= c2g);
            assert forall|i: int| 0 <= i < kk implies #[trigger] u.entry_coeffs(i, 0)
                == u_g[i] by {
                assert(32 * duu * (i + 1) <= 32 * duu * kk) by (nonlinear_arith)
                    requires i + 1 <= kk, duu >= 1;
                assert(0 <= 32 * duu * i) by (nonlinear_arith)
                    requires i >= 0, duu >= 1;
                assert(32 * duu * i < 32 * duu * (i + 1)) by (nonlinear_arith)
                    requires duu >= 1;
                assert(c_1@.subrange(32 * duu * i, 32 * duu * (i + 1)) == c1g.subrange(
                    32 * duu * i,
                    32 * duu * (i + 1),
                ));
            };
            assert(u_hat.col_coeffs(0) =~= u_hat_g);
            assert(s_hat.col_coeffs(0) =~= s_hat_g);
        }
        r
    }

    /// K-PKE encryption: splits the key into the encoded vector and the
    /// matrix seed, runs the modulus re-encoding check, samples the
    /// transposed matrix and the noise, and returns the compressed,
    /// encoded ciphertext. Fails exactly on a key of the wrong length, a
    /// key failing the modulus check, an exhausted sampling budget, or a
    /// message that is not 32 bytes, in that order of precedence.
    pub fn _k_pke_encrypt(&self, ek_pke: &[u8], m: &[u8], r: &[u8]) -> (res: Result<
        Vec<u8>,
        MlKemError,
    >)
        requires
            self.wf(),
        ensures
            res is Ok <==> spec_encrypt_ok(self.k as int, ek_pke@, m@),
            ek_pke@.len() != 384 * self.k as int + 32 ==> (res matches Err(e) && e
                == MlKemError::InvalidLength),
            ek_pke@.len() == 384 * self.k as int + 32 && !spec_modulus_check(
                self.k as int,
                ek_pke@,
            ) ==> (res matches Err(e) && e == MlKemError::ModulusCheckFailed),
            ek_pke@.len() == 384 * self.k as int + 32 && spec_modulus_check(
                self.k as int,
                ek_pke@,
            ) && !matrix_samplable(self.k as int, ek_pke@.skip(384 * self.k as int)) ==> (
            res matches Err(e) && e == MlKemError::SamplingExhausted),
            ek_pke@.len() == 384 * self.k as int + 32 && spec_modulus_check(
                self.k as int,
                ek_pke@,
            ) && matrix_samplable(self.k as int, ek_pke@.skip(384 * self.k as int)) && m@.len()
                != 32 ==> (res matches Err(e) && e == MlKemError::InvalidLength),
            res matches Ok(c) ==> {
                &&& c@ == spec_k_pke_encrypt(
                    self.k as int,
                    self.eta_1 as int,
                    self.eta_2 as int,
                    self.du as int,
                    self.dv as int,
                    ek_pke@,
                    m@,
                    r@,
                )
                &&& c@.len() == 32 * (self.du as int * self.k as int + self.dv as int)
            },
    {
        let ghost kk = self.k as int;
        let k_us: usize = self.k as usize;
        if ek_pke.len() != 384 * k_us + 32 {
            return Err(MlKemError::InvalidLength);
        }
        let t_hat_bytes: &[u8] = &ek_pke[0..384 * k_us];
        let rho: &[u8] = &ek_pke[384 * k_us..ek_pke.len()];
        proof {
            assert(t_hat_bytes@ =~= ek_pke@.take(384 * kk));
            assert(rho@ =~= ek_pke@.skip(384 * kk));
        }
        let t_hat = Module::decode_vector(t_hat_bytes, k_us, 12, true).unwrap();
        let reenc = t_hat.encode(12);
        proof {
            assert(storage_cells(t_hat) =~= spec_decode_vec(ek_pke@.take(384 * kk), kk, 12)) by {
                assert forall|t: int| 0 <= t < kk implies storage_cells(t_hat)[t]
                    == spec_decode_vec(ek_pke@.take(384 * kk), kk, 12)[t] by {
                    lemma_basic_div(t, kk);
                    lemma_small_mod(t as nat, kk as nat);
                    assert(t_hat.data@[0]@[t] == t_hat.entry(t, 0));
                    assert(t_hat.entry_coeffs(t, 0) == spec_decode(
                        t_hat_bytes@.subrange(32 * 12 * t, 32 * 12 * (t + 1)),
                        12,
                    ));
                    assert(t_hat_bytes@.subrange(32 * 12 * t, 32 * 12 * (t + 1)) == ek_pke@.take(
                        384 * kk,
                    ).subrange(32 * 12 * t, 32 * 12 * (t + 1)));
                };
            };
        }
        if !bytes_equal_ct(reenc.as_slice(), t_hat_bytes) {
            return Err(MlKemError::ModulusCheckFailed);
        }
        let a_hat_t = match self._generate_matrix_from_seed(rho, true) {
            Ok(x) => x,
            Err(e) => {
                return Err(e);
            },
        };
        let (y, n1) = self._generate_error_vector(r, self.eta_1, 0);
        let (e_1, n2) = self._generate_error_vector(r, self.eta_2, n1);
        let (e_2, _n3) = self._generate_polynomial(r, self.eta_2, n2);
        let y_hat = y.to_ntt();
        let u = a_hat_t.mat_mul(&y_hat).unwrap().from_ntt().add(&e_1).unwrap();
        let mu = match Ring::decode(m, 1, false) {
            Ok(x) => x,
            Err(e) => {
                return Err(e);
            },
        }.decompress(1);
        let v = t_hat.dot(&y_hat).unwrap().from_ntt().add(&e_2.add(&mu));
        let u_comp = u.compress(self.du);
        let c_1 = u_comp.encode(self.du as usize);
        let c_2 = v.compress(self.dv).encode(self.dv as usize);
        let out = concat_bytes(c_1.as_slice(), c_2.as_slice());
        proof {
            let eta1 = self.eta_1 as int;
            let eta2 = self.eta_2 as int;
            let duu = self.du as int;
            let dvv = self.dv as int;
            let rhog = ek_pke@.skip(384 * kk);
            let t_hat_g = spec_decode_vec(ek_pke@.take(384 * kk), kk, 12);
            let y_hat_g = spec_cbd_vec_ntt(r@, eta1, 0, kk);
            let e1_g = spec_cbd_vec(r@, eta2, kk, kk);
            let u_g = Seq::new(
                kk as nat,
                |i: int| spec_add_poly(
                    spec_inv_ntt(spec_dot(spec_at_row(rhog, kk, i), y_hat_g, kk as nat, true)),
                    e1_g[i],
                ),
            );
            assert(y_hat.col_coeffs(0) =~= y_hat_g);
            assert(e_1.col_coeffs(0) =~= e1_g);
            assert forall|i: int| 0 <= i < kk implies #[trigger] u.entry_coeffs(i, 0)
                == u_g[i] by {
                assert(a_hat_t.row_coeffs(i) =~= spec_at_row(rhog, kk, i));
            };
            assert(t_hat.col_coeffs(0) =~= t_hat_g);
            // The compressed vector's storage cells are its logical column.
            let uc = Seq::new(kk as nat, |i: int| spec_compress(u_g[i], duu as nat));
            assert(storage_cells(u_comp) =~= uc) by {
                assert forall|t: int| 0 <= t < kk implies storage_cells(u_comp)[t] == uc[t] by {
                    lemma_fundamental_div_mod(t, 1);
                    lemma_mod_bound(t, 1);
                    assert(u_comp.data@[t]@[0] == u_comp.entry(t, 0));
                    assert(u_comp.entry_coeffs(t, 0) == spec_compress(
                        u.entry_coeffs(t, 0),
                        duu as nat,
                    ));
                };
            };
            assert(out@ == spec_k_pke_encrypt(kk, eta1, eta2, duu, dvv, ek_pke@, m@, r@));
        }
        Ok(out)
    }
}

/// ML-KEM key generation from the two 32-byte seeds: the encapsulation
/// key is the K-PKE encryption key; the decapsulation key appends to the
/// K-PKE decryption key the encapsulation key, its hash, and z.
pub open spec fn spec_keygen_internal(k: int, eta1: int, d: Seq<u8>, z: Seq<u8>) -> (
    Seq<u8>,
    Seq<u8>,
) {
    let kp = spec_k_pke_keygen(k, eta1, d);
    (kp.0, kp.1 + kp.0 + sha3_256_of(kp.0) + z)
}

/// The shared key of encapsulation: the first half of G(m || H(ek)).
pub open spec fn spec_encaps_shared_key(ek: Seq<u8>, m: Seq<u8>) -> Seq<u8> {
    sha3_512_of(m + sha3_256_of(ek)).take(32)
}

/// The encryption randomness of encapsulation: the second half of
/// G(m || H(ek)).
pub open spec fn spec_encaps_randomness(ek: Seq<u8>, m: Seq<u8>) -> Seq<u8> {
    sha3_512_of(m + sha3_256_of(ek)).skip(32)
}

/// The shared key decapsulation returns on well-formed inputs: the
/// re-derived key when re-encryption reproduces the ciphertext, and the
/// implicit-rejection key J(z || c) otherwise.
pub open spec fn spec_decaps_key(
    k: int,
    eta1: int,
    eta2: int,
    du: int,
    dv: int,
    dk: Seq<u8>,
    c: Seq<u8>,
) -> Seq<u8> {
    let dk_pke = dk.take(384 * k);
    let ek_pke = dk.subrange(384 * k, 768 * k + 32);
    let h = dk.subrange(768 * k + 32, 768 * k + 64);
    let z = dk.skip(768 * k + 64);
    let m_prime = spec_k_pke_decrypt(k, du, dv, dk_pke, c);
    let g = sha3_512_of(m_prime + h);
    let k_prime = g.take(32);
    let r_prime = g.skip(32);
    let k_bar = shake256_prefix(z + c, 32);
    let c_prime = spec_k_pke_encrypt(k, eta1, eta2, du, dv, ek_pke, m_prime, r_prime);
    if c == c_prime {
        k_prime
    } else {
        k_bar
    }
}

impl MLKem {
    /// ML-KEM key generation from the seeds d and z. Fails only when
    /// matrix sampling exhausts its budget.
    pub fn _keygen_internal(&self, d: &[u8], z: &[u8]) -> (r: Result<(Vec<u8>, Vec<u8>), MlKemError>)
        requires
            self.wf(),
            z@.len() == 32,
        ensures
            r is Ok <==> matrix_samplable(
                self.k as int,
                sha3_512_of(d@.push(self.k)).take(32),
            ),
            r matches Ok(p) ==> {
                &&& p.0@ == spec_keygen_internal(self.k as int, self.eta_1 as int, d@, z@).0
                &&& p.1@ == spec_keygen_internal(self.k as int, self.eta_1 as int, d@, z@).1
                &&& p.0@.len() == 384 * self.k as int + 32
                &&& p.1@.len() == 768 * self.k as int + 96
            },
            r matches Err(e) ==> e == MlKemError::SamplingExhausted,
    {
        let (ek_pke, dk_pke) = match self._k_pke_keygen(d) {
            Ok(p) => p,
            Err(e) => {
                return Err(e);
            },
        };
        let ek_hash = Self::_h(ek_pke.as_slice());
        let dk_a = concat_bytes(dk_pke.as_slice(), ek_pke.as_slice());
        let dk_b = concat_bytes(dk_a.as_slice(), ek_hash.as_slice());
        let dk = concat_bytes(dk_b.as_slice(), z);
        proof {
            let kp = spec_k_pke_keygen(self.k as int, self.eta_1 as int, d@);
            assert(dk@ =~= kp.1 + kp.0 + sha3_256_of(kp.0) + z@);
        }
        Ok((ek_pke, dk))
    }

    /// ML-KEM encapsulation against a fixed 32-byte message: the shared
    /// key and the randomness both come from G(m || H(ek)), and the
    /// ciphertext is the K-PKE encryption of m. Fails exactly when the
    /// underlying encryption does.
    pub fn _encaps_internal(&self, ek: &[u8], m: &[u8]) -> (r: Result<(Vec<u8>, Vec<u8>), MlKemError>)
        requires
            self.wf(),
        ensures
            r is Ok <==> spec_encrypt_ok(self.k as int, ek@, m@),
            r matches Ok(p) ==> {
                &&& p.0@ == spec_encaps_shared_key(ek@, m@)
                &&& p.0@.len() == 32
                &&& p.1@ == spec_k_pke_encrypt(
                    self.k as int,
                    self.eta_1 as int,
                    self.eta_2 as int,
                    self.du as int,
                    self.dv as int,
                    ek@,
                    m@,
                    spec_encaps_randomness(ek@, m@),
                )
                &&& p.1@.len() == 32 * (self.du as int * self.k as int + self.dv as int)
            },
    {
        let ek_hash = Self::_h(ek);
        let pre_image = concat_bytes(m, ek_hash.as_slice());
        let (key, rand) = Self::_g(pre_image.as_slice());
        let c = match self._k_pke_encrypt(ek, m, rand.as_slice()) {
            Ok(c) => c,
            Err(e) => {
                return Err(e);
            },
        };
        Ok((key, c))
    }

    /// ML-KEM decapsulation: checks the ciphertext and key lengths and
    /// the hash embedded in the decapsulation key, decrypts, re-encrypts,
    /// and selects in constant time between the re-derived key and the
    /// implicit-rejection key J(z || c).
    pub fn _decaps_internal(&self, dk: &[u8], c: &[u8]) -> (r: Result<Vec<u8>, MlKemError>)
        requires
            self.wf(),
        ensures
            c@.len() != 32 * (self.du as int * self.k as int + self.dv as int) ==> (
            r matches Err(e) && e == MlKemError::CiphertextLength),
            c@.len() == 32 * (self.du as int * self.k as int + self.dv as int) && dk@.len() != 768
                * self.k as int + 96 ==> (r matches Err(e) && e == MlKemError::DecapsKeyLength),
            r matches Ok(key) ==> {
                &&& c@.len() == 32 * (self.du as int * self.k as int + self.dv as int)
                &&& dk@.len() == 768 * self.k as int + 96
                &&& sha3_256_of(dk@.subrange(384 * self.k as int, 768 * self.k as int + 32))
                    == dk@.subrange(768 * self.k as int + 32, 768 * self.k as int + 64)
                &&& key@ == spec_decaps_key(
                    self.k as int,
                    self.eta_1 as int,
                    self.eta_2 as int,
                    self.du as int,
                    self.dv as int,
                    dk@,
                    c@,
                )
                &&& key@.len() == 32
            },
            r is Ok <==> {
                &&& c@.len() == 32 * (self.du as int * self.k as int + self.dv as int)
                &&& dk@.len() == 768 * self.k as int + 96
                &&& sha3_256_of(dk@.subrange(384 * self.k as int, 768 * self.k as int + 32))
                    == dk@.subrange(768 * self.k as int + 32, 768 * self.k as int + 64)
                &&& spec_modulus_check(
                    self.k as int,
                    dk@.subrange(384 * self.k as int, 768 * self.k as int + 32),
                )
                &&& matrix_samplable(
                    self.k as int,
                    dk@.subrange(768 * self.k as int, 768 * self.k as int + 32),
                )
            },
    {
        let ghost kk = self.k as int;
        let k_us: usize = self.k as usize;
        proof {
            lemma_mul_upper(self.du as int, kk, 11, 4);
        }
        if c.len() != 32 * (self.du as usize * k_us + self.dv as usize) {
            return Err(MlKemError::CiphertextLength);
        }
        if dk.len() != 768 * k_us + 96 {
            return Err(MlKemError::DecapsKeyLength);
        }
        let dk_pke: &[u8] = &dk[0..384 * k_us];
        let ek_pke: &[u8] = &dk[384 * k_us..768 * k_us + 32];
        let h: &[u8] = &dk[768 * k_us + 32..768 * k_us + 64];
        let z: &[u8] = &dk[768 * k_us + 64..dk.len()];
        let computed = Self::_h(ek_pke);
        if !bytes_equal_ct(computed.as_slice(), h) {
            proof {
                assert(computed@ != h@);
            }
            return Err(MlKemError::HashCheckFailed);
        }
        let m_prime = self._k_pke_decrypt(dk_pke, c);
        let pre1 = concat_bytes(m_prime.as_slice(), h);
        let (k_prime, r_prime) = Self::_g(pre1.as_slice());
        let pre2 = concat_bytes(z, c);
        let k_bar = Self::_j(pre2.as_slice());
        let c_prime = match self._k_pke_encrypt(ek_pke, m_prime.as_slice(), r_prime.as_slice()) {
            Ok(cp) => cp,
            Err(e) => {
                proof {
                    assert(ek_pke@ =~= dk@.subrange(384 * kk, 768 * kk + 32));
                    assert(ek_pke@.skip(384 * kk) =~= dk@.subrange(768 * kk, 768 * kk + 32));
                }
                return Err(e);
            },
        };
        let same = bytes_equal_ct(c, c_prime.as_slice());
        let out = select_bytes(k_bar.as_slice(), k_prime.as_slice(), same).unwrap();
        proof {
            let dk_pke_g = dk@.take(384 * kk);
            let ek_pke_g = dk@.subrange(384 * kk, 768 * kk + 32);
            let h_g = dk@.subrange(768 * kk + 32, 768 * kk + 64);
            let z_g = dk@.skip(768 * kk + 64);
            assert(dk_pke@ =~= dk_pke_g);
            assert(ek_pke@ =~= ek_pke_g);
            assert(h@ =~= h_g);
            assert(z@ =~= z_g);
            assert(ek_pke@.skip(384 * kk) =~= dk@.subrange(768 * kk, 768 * kk + 32));
            assert(pre1@ == m_prime@ + h_g);
            assert(pre2@ == z_g + c@);
            let key_g = spec_decaps_key(
                kk,
                self.eta_1 as int,
                self.eta_2 as int,
                self.du as int,
                self.dv as int,
                dk@,
                c@,
            );
            if same {
                assert(out@ =~= k_prime@);
            } else {
                assert(out@ =~= k_bar@);
            }
            assert(out@ == key_g);
        }
        Ok(out)
    }

    /// Key generation with fresh 32-byte seeds from the operating-system
    /// random source. Fails only when matrix sampling exhausts its
    /// budget.
    pub fn keygen(&self) -> (r: Result<(Vec<u8>, Vec<u8>), MlKemError>)
        requires
            self.wf(),
        ensures
            r matches Ok(p) ==> exists|d: Seq<u8>, z: Seq<u8>| {
                &&& d.len() == 32
                &&& z.len() == 32
                &&& p.0@ == spec_keygen_internal(self.k as int, self.eta_1 as int, d, z).0
                &&& p.1@ == spec_keygen_internal(self.k as int, self.eta_1 as int, d, z).1
            },
            r matches Ok(p) ==> p.0@.len() == 384 * self.k as int + 32 && p.1@.len() == 768
                * self.k as int + 96,
            r matches Err(e) ==> e == MlKemError::SamplingExhausted,
    {
        let d = Self::random_bytes(32);
        let z = Self::random_bytes(32);
        let r = self._keygen_internal(d.as_slice(), z.as_slice());
        proof {
            if r is Ok {
                let p = r->Ok_0;
                assert(exists|dd: Seq<u8>, zz: Seq<u8>| {
                    &&& dd.len() == 32
                    &&& zz.len() == 32
                    &&& p.0@ == spec_keygen_internal(self.k as int, self.eta_1 as int, dd, zz).0
                    &&& p.1@ == spec_keygen_internal(self.k as int, self.eta_1 as int, dd, zz).1
                }) by {
                    let dd = d@;
                    let zz = z@;
                    assert(dd.len() == 32 && zz.len() == 32 && p.0@ == spec_keygen_internal(
                        self.k as int,
                        self.eta_1 as int,
                        dd,
                        zz,
                    ).0 && p.1@ == spec_keygen_internal(self.k as int, self.eta_1 as int, dd, zz).1);
                };
            }
        }
        r
    }

    /// Encapsulation with a fresh 32-byte message from the operating-
    /// system random source. Fails exactly when the encapsulation key is
    /// malformed or matrix sampling exhausts its budget.
    pub fn encaps(&self, ek: &[u8]) -> (r: Result<(Vec<u8>, Vec<u8>), MlKemError>)
        requires
            self.wf(),
        ensures
            r is Ok <==> {
                &&& ek@.len() == 384 * self.k as int + 32
                &&& spec_modulus_check(self.k as int, ek@)
                &&& matrix_samplable(self.k as int, ek@.skip(384 * self.k as int))
            },
            r matches Ok(p) ==> exists|m: Seq<u8>| {
                &&& m.len() == 32
                &&& p.0@ == spec_encaps_shared_key(ek@, m)
                &&& p.1@ == spec_k_pke_encrypt(
                    self.k as int,
                    self.eta_1 as int,
                    self.eta_2 as int,
                    self.du as int,
                    self.dv as int,
                    ek@,
                    m,
                    spec_encaps_randomness(ek@, m),
                )
            },
            r matches Ok(p) ==> p.0@.len() == 32 && p.1@.len() == 32 * (self.du as int
                * self.k as int + self.dv as int),
    {
        let m = Self::random_bytes(32);
        let r = self._encaps_internal(ek, m.as_slice());
        proof {
            if r is Ok {
                let p = r->Ok_0;
                assert(exists|mm: Seq<u8>| {
                    &&& mm.len() == 32
                    &&& p.0@ == spec_encaps_shared_key(ek@, mm)
                    &&& p.1@ == spec_k_pke_encrypt(
                        self.k as int,
                        self.eta_1 as int,
                        self.eta_2 as int,
                        self.du as int,
                        self.dv as int,
                        ek@,
                        mm,
                        spec_encaps_randomness(ek@, mm),
                    )
                }) by {
                    let mm = m@;
                    assert(mm.len() == 32 && p.0@ == spec_encaps_shared_key(ek@, mm) && p.1@
                        == spec_k_pke_encrypt(
                        self.k as int,
                        self.eta_1 as int,
                        self.eta_2 as int,
                        self.du as int,
                        self.dv as int,
                        ek@,
                        mm,
                        spec_encaps_randomness(ek@, mm),
                    ));
                };
            }
        }
        r
    }

    /// Decapsulation: the verified core behind the KEM's receiving side.
    pub fn decaps(&self, dk: &[u8], c: &[u8]) -> (r: Result<Vec<u8>, MlKemError>)
        requires
            self.wf(),
        ensures
            r matches Ok(key) ==> {
                &&& key@ == spec_decaps_key(
                    self.k as int,
                    self.eta_1 as int,
                    self.eta_2 as int,
                    self.du as int,
                    self.dv as int,
                    dk@,
                    c@,
                )
                &&& key@.len() == 32
            },
            r is Ok <==> {
                &&& c@.len() == 32 * (self.du as int * self.k as int + self.dv as int)
                &&& dk@.len() == 768 * self.k as int + 96
                &&& sha3_256_of(dk@.subrange(384 * self.k as int, 768 * self.k as int + 32))
                    == dk@.subrange(768 * self.k as int + 32, 768 * self.k as int + 64)
                &&& spec_modulus_check(
                    self.k as int,
                    dk@.subrange(384 * self.k as int, 768 * self.k as int + 32),
                )
                &&& matrix_samplable(
                    self.k as int,
                    dk@.subrange(768 * self.k as int, 768 * self.k as int + 32),
                )
            },
    {
        self._decaps_internal(dk, c)
    }
}

/// The deterministic heart of the KEM round trip: for keys derived from
/// KeyGen_internal(d, z) and a ciphertext from Encaps_internal(ek, m),
/// if K-PKE decryption recovers m (which FIPS 203 guarantees except
/// with negligible probability over the sampled noise), decapsulation
/// returns exactly the encapsulated shared key.
pub proof fn lemma_kem_round_trip(
    k: int,
    eta1: int,
    eta2: int,
    du: int,
    dv: int,
    d: Seq<u8>,
    z: Seq<u8>,
    m: Seq<u8>,
)
    requires
        z.len() == 32,
        k >= 1,
        spec_k_pke_keygen(k, eta1, d).0.len() == 384 * k + 32,
        spec_k_pke_keygen(k, eta1, d).1.len() == 384 * k,
        sha3_256_of(spec_k_pke_keygen(k, eta1, d).0).len() == 32,
        spec_k_pke_decrypt(
            k,
            du,
            dv,
            spec_k_pke_keygen(k, eta1, d).1,
            spec_k_pke_encrypt(
                k,
                eta1,
                eta2,
                du,
                dv,
                spec_k_pke_keygen(k, eta1, d).0,
                m,
                spec_encaps_randomness(spec_k_pke_keygen(k, eta1, d).0, m),
            ),
        ) == m,
    ensures
        spec_decaps_key(
            k,
            eta1,
            eta2,
            du,
            dv,
            spec_keygen_internal(k, eta1, d, z).1,
            spec_k_pke_encrypt(
                k,
                eta1,
                eta2,
                du,
                dv,
                spec_keygen_internal(k, eta1, d, z).0,
                m,
                spec_encaps_randomness(spec_keygen_internal(k, eta1, d, z).0, m),
            ),
        ) == spec_encaps_shared_key(spec_keygen_internal(k, eta1, d, z).0, m),
{
    let ek = spec_k_pke_keygen(k, eta1, d).0;
    let dkp = spec_k_pke_keygen(k, eta1, d).1;
    let dk = dkp + ek + sha3_256_of(ek) + z;
    assert(spec_keygen_internal(k, eta1, d, z).1 == dk);
    assert(dk.take(384 * k) =~= dkp);
    assert(dk.subrange(384 * k, 768 * k + 32) =~= ek);
    assert(dk.subrange(768 * k + 32, 768 * k + 64) =~= sha3_256_of(ek));
    let c = spec_k_pke_encrypt(k, eta1, eta2, du, dv, ek, m, spec_encaps_randomness(ek, m));
    assert(spec_k_pke_decrypt(k, du, dv, dk.take(384 * k), c) == m);
}

/// Implicit rejection is deterministic: whenever re-encryption does not
/// reproduce the handed-in ciphertext, the decapsulated key is
/// J(z || c), a pure function of the z part of the decapsulation key
/// and the ciphertext alone.
pub proof fn lemma_implicit_rejection(
    k: int,
    eta1: int,
    eta2: int,
    du: int,
    dv: int,
    dk: Seq<u8>,
    c: Seq<u8>,
)
    requires
        c != spec_k_pke_encrypt(
            k,
            eta1,
            eta2,
            du,
            dv,
            dk.subrange(384 * k, 768 * k + 32),
            spec_k_pke_decrypt(k, du, dv, dk.take(384 * k), c),
            sha3_512_of(
                spec_k_pke_decrypt(k, du, dv, dk.take(384 * k), c) + dk.subrange(
                    768 * k + 32,
                    768 * k + 64,
                ),
            ).skip(32),
        ),
    ensures
        spec_decaps_key(k, eta1, eta2, du, dv, dk, c) == shake256_prefix(
            dk.skip(768 * k + 64) + c,
            32,
        ),
{
}

} // verus!
