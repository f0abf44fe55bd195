//! Deterministic sampling into R_q: the centered binomial distribution
//! over a PRF output, uniform rejection sampling over an XOF stream, and
//! a uniformly random element for exercising the ring operations.

use vstd::prelude::*;

use rand::Rng;

use crate::codec::all_bits;
use crate::codec::bytes_bits;
use crate::codec::to_bit_stream;
use crate::errors::MlKemError;
use crate::ring::poly_wf;
use crate::ring::Ring;
use crate::ring::Q;

verus! {

/// The number of one bits among bits[start], ..., bits[start + n - 1]:
/// their sum, since every entry is 0 or 1.
pub open spec fn spec_bit_sum(bits: Seq<u8>, start: int, n: nat) -> int
    decreases n,
{
    if n == 0 {
        0
    } else {
        spec_bit_sum(bits, start, (n - 1) as nat) + bits[start + n - 1]
    }
}

/// The centered binomial distribution with parameter eta: coefficient i
/// is the popcount of the first eta-bit half minus the popcount of the
/// second, normalized into [0, q).
pub open spec fn spec_cbd(bytes: Seq<u8>, eta: nat) -> Seq<u16> {
    Seq::new(256, |i: int| {
        let a = spec_bit_sum(bytes_bits(bytes), 2 * eta * i, eta);
        let b = spec_bit_sum(bytes_bits(bytes), 2 * eta * i + eta, eta);
        (((a + Q - b) % (Q as int)) as u16)
    })
}

/// The uniform rejection-sampling scan: bytes are taken three at a time;
/// each triple offers the two candidates d1 = b0 + 256 (b1 mod 16) and
/// d2 = floor(b1 / 16) + 16 b2, and each candidate below q is accepted
/// until 256 coefficients are gathered.
pub open spec fn spec_sample_scan(bytes: Seq<u8>, i: int, acc: Seq<u16>) -> Seq<u16>
    decreases bytes.len() - i,
{
    if acc.len() >= 256 || i < 0 || i + 3 > bytes.len() {
        acc
    } else {
        let d1 = bytes[i] + 256 * (bytes[i + 1] % 16);
        let d2 = bytes[i + 1] / 16 + 16 * bytes[i + 2];
        let acc1 = if d1 < Q {
            acc.push(d1 as u16)
        } else {
            acc
        };
        let acc2 = if d2 < Q && acc1.len() < 256 {
            acc1.push(d2 as u16)
        } else {
            acc1
        };
        spec_sample_scan(bytes, i + 3, acc2)
    }
}

/// The coefficients the rejection-sampling scan of a byte string yields.
pub open spec fn spec_sample(bytes: Seq<u8>) -> Seq<u16> {
    spec_sample_scan(bytes, 0, Seq::empty())
}

/// The scan of the byte string fills all 256 coefficients.
pub open spec fn sample_complete(bytes: Seq<u8>) -> bool {
    spec_sample(bytes).len() == 256
}

/// Relies on rand::Rng::gen_range over rand::thread_rng: the result lies
/// in the requested range 0..=255.
#[verifier::external_body]
fn random_coefficient() -> (r: u16)
    ensures
        r < 256,
{
    let mut rng = rand::thread_rng();
    rng.gen_range(0..=255)
}

impl Ring {
    /// Samples the centered binomial distribution with parameter eta from
    /// 64 * eta input bytes. Fails exactly when the input has the wrong
    /// length.
    pub fn cbd(input_bytes: &[u8], eta: u8, is_ntt: bool) -> (r: Result<Ring, MlKemError>)
        requires
            1 <= eta <= 3,
        ensures
            r is Ok <==> input_bytes@.len() == 64 * eta,
            r matches Ok(ring) ==> {
                &&& ring.wf()
                &&& ring.coefficients@ == spec_cbd(input_bytes@, eta as nat)
                &&& ring.is_ntt == is_ntt
            },
            r matches Err(e) ==> e == MlKemError::InvalidLength,
    {
        let eta_us: usize = eta as usize;
        if input_bytes.len() != 64 * eta_us {
            return Err(MlKemError::InvalidLength);
        }
        let bits: Vec<u8> = to_bit_stream(input_bytes);
        let ghost bg = bits@;
        let mut coefficients: Vec<u16> = Vec::new();
        let mut i: usize = 0;
        while i < 256
            invariant
                i <= 256,
                1 <= eta_us <= 3,
                eta_us == eta,
                bg == bits@,
                bg == bytes_bits(input_bytes@),
                bg.len() == 512 * eta_us,
                all_bits(bg),
                coefficients@.len() == i,
                forall|t: int| 0 <= t < i ==> coefficients@[t] == spec_cbd(
                    input_bytes@,
                    eta as nat,
                )[t],
                forall|t: int| 0 <= t < i ==> coefficients@[t] < Q,
            decreases 256 - i,
        {
            proof {
                assert(2 * (eta_us as int) * (i as int) + 2 * (eta_us as int) <= 512 * (
                eta_us as int)) by (nonlinear_arith)
                    requires 0 <= i < 256, 1 <= eta_us <= 3;
            }
            let base: usize = 2 * eta_us * i;
            let mut a: u32 = 0;
            let mut j: usize = 0;
            while j < eta_us
                invariant
                    j <= eta_us,
                    eta_us <= 3,
                    base <= 1530,
                    base + 2 * eta_us <= bits@.len(),
                    bg == bits@,
                    all_bits(bg),
                    a as int == spec_bit_sum(bg, base as int, j as nat),
                    a <= j,
                decreases eta_us - j,
            {
                a = a + bits[base + j] as u32;
                j += 1;
            }
            let mut b: u32 = 0;
            let mut j2: usize = 0;
            while j2 < eta_us
                invariant
                    j2 <= eta_us,
                    eta_us <= 3,
                    base <= 1530,
                    base + 2 * eta_us <= bits@.len(),
                    bg == bits@,
                    all_bits(bg),
                    b as int == spec_bit_sum(bg, base as int + eta_us as int, j2 as nat),
                    b <= j2,
                decreases eta_us - j2,
            {
                b = b + bits[base + eta_us + j2] as u32;
                j2 += 1;
            }
            let value: u32 = (a + Q as u32 - b) % (Q as u32);
            coefficients.push(value as u16);
            i += 1;
        }
        let r = Ring { coefficients, is_ntt };
        proof {
            assert(r.coefficients@ =~= spec_cbd(input_bytes@, eta as nat));
        }
        Ok(r)
    }

    /// Uniform rejection sampling of an NTT-domain element from an XOF
    /// byte stream. Returns None exactly when the stream is exhausted
    /// before all 256 coefficients are filled; the caller then pulls a
    /// longer stream.
    pub fn ntt_sample(input_bytes: &[u8]) -> (r: Option<Ring>)
        ensures
            r is Some <==> sample_complete(input_bytes@),
            r matches Some(ring) ==> {
                &&& ring.wf()
                &&& ring.coefficients@ == spec_sample(input_bytes@)
                &&& ring.is_ntt == true
            },
    {
        let n = input_bytes.len();
        let mut coefficients: Vec<u16> = Vec::new();
        let mut i: usize = 0;
        while coefficients.len() < 256 && n - i >= 3
            invariant
                n == input_bytes@.len(),
                i <= n,
                coefficients@.len() <= 256,
                forall|t: int| 0 <= t < coefficients@.len() ==> coefficients@[t] < Q,
                spec_sample_scan(input_bytes@, i as int, coefficients@) == spec_sample(
                    input_bytes@,
                ),
            decreases n - i,
        {
            let a: u16 = input_bytes[i] as u16;
            let b: u16 = input_bytes[i + 1] as u16;
            let c: u16 = input_bytes[i + 2] as u16;
            let d1: u16 = a + 256 * (b % 16);
            let d2: u16 = b / 16 + 16 * c;
            if d1 < Q {
                coefficients.push(d1);
            }
            if d2 < Q && coefficients.len() < 256 {
                coefficients.push(d2);
            }
            i += 3;
        }
        if coefficients.len() == 256 {
            let r = Ring { coefficients, is_ntt: true };
            Some(r)
        } else {
            proof {
                assert(!sample_complete(input_bytes@));
            }
            None
        }
    }

    /// A ring element with 256 coefficients drawn uniformly from 0..=255,
    /// in the normal domain.
    pub fn random() -> (r: Ring)
        ensures
            r.wf(),
            r.is_ntt == false,
            forall|i: int| 0 <= i < 256 ==> r.coefficients@[i] < 256,
    {
        let mut coefficients: Vec<u16> = Vec::new();
        let mut i: usize = 0;
        while i < 256
            invariant
                i <= 256,
                coefficients@.len() == i,
                forall|t: int| 0 <= t < i ==> coefficients@[t] < 256,
            decreases 256 - i,
        {
            coefficients.push(random_coefficient());
            i += 1;
        }
        Ring { coefficients, is_ntt: false }
    }
}

} // verus!
