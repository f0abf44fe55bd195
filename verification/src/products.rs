//! Ring multiplication: schoolbook in the normal domain, the 64-block
//! degree-one base-case product in the NTT domain, and the dispatch that
//! refuses mixed domains.

use vstd::prelude::*;

use vstd::arithmetic::div_mod::lemma_fundamental_div_mod_converse;

use crate::codec::lemma_mul_upper;
use crate::errors::MlKemError;
use crate::ring::lemma_zetas_reduced;
use crate::ring::poly_wf;
use crate::ring::Ring;
use crate::ring::Q;
use crate::ring::ZETAS;

verus! {

/// One term of the schoolbook product at output index k: a_i * b_(k-i),
/// with the x^256 = -1 wraparound (a sign flip) when i exceeds k.
pub open spec fn spec_school_term(a: Seq<u16>, b: Seq<u16>, k: int, i: int) -> int {
    if i <= k {
        (a[i] * b[k - i]) % (Q as int)
    } else {
        ((Q as int) - (a[i] * b[k - i + 256]) % (Q as int)) % (Q as int)
    }
}

/// The schoolbook sum at output index k over the first n terms, reduced
/// modulo q at each step.
pub open spec fn spec_school_sum(a: Seq<u16>, b: Seq<u16>, k: int, n: nat) -> int
    decreases n,
{
    if n == 0 {
        0
    } else {
        (spec_school_sum(a, b, k, (n - 1) as nat) + spec_school_term(a, b, k, n - 1)) % (Q as int)
    }
}

/// Schoolbook multiplication in Z_q[x]/(x^256 + 1).
pub open spec fn spec_school_mul(a: Seq<u16>, b: Seq<u16>) -> Seq<u16> {
    Seq::new(256, |k: int| spec_school_sum(a, b, k, 256) as u16)
}

/// The constant coefficient of (a0 + a1 X)(b0 + b1 X) in Z_q[X]/(X^2 - g).
pub open spec fn spec_base_mul_0(a0: u16, a1: u16, b0: u16, b1: u16, g: int) -> u16 {
    (((a0 * b0 + g * (a1 * b1)) % (Q as int)) as u16)
}

/// The linear coefficient of (a0 + a1 X)(b0 + b1 X).
pub open spec fn spec_base_mul_1(a0: u16, a1: u16, b0: u16, b1: u16) -> u16 {
    (((a1 * b0 + a0 * b1) % (Q as int)) as u16)
}

/// The NTT-domain coefficient-wise product: block i holds two degree-one
/// products, the first modulo X^2 - zeta_i, the second modulo X^2 + zeta_i,
/// with zeta_i the table entry 64 + i.
pub open spec fn spec_ntt_mul(f: Seq<u16>, g: Seq<u16>) -> Seq<u16> {
    Seq::new(256, |t: int| {
        let i = t / 4;
        let z = ZETAS[64 + i] as int;
        if t % 4 == 0 {
            spec_base_mul_0(f[4 * i], f[4 * i + 1], g[4 * i], g[4 * i + 1], z)
        } else if t % 4 == 1 {
            spec_base_mul_1(f[4 * i], f[4 * i + 1], g[4 * i], g[4 * i + 1])
        } else if t % 4 == 2 {
            spec_base_mul_0(f[4 * i + 2], f[4 * i + 3], g[4 * i + 2], g[4 * i + 3], (Q as int) - z)
        } else {
            spec_base_mul_1(f[4 * i + 2], f[4 * i + 3], g[4 * i + 2], g[4 * i + 3])
        }
    })
}

impl Ring {
    /// The two coefficients of the degree-one product
    /// (a0 + a1 X)(b0 + b1 X) modulo X^2 - zeta.
    fn _ntt_base_mul(a0: u16, a1: u16, b0: u16, b1: u16, zeta: u16) -> (r: (u16, u16))
        requires
            a0 < Q,
            a1 < Q,
            b0 < Q,
            b1 < Q,
            zeta < 2 * Q,
        ensures
            r.0 == spec_base_mul_0(a0, a1, b0, b1, zeta as int),
            r.1 == spec_base_mul_1(a0, a1, b0, b1),
            r.0 < Q,
            r.1 < Q,
    {
        proof {
            lemma_mul_upper(a0 as int, b0 as int, 3328, 3328);
            lemma_mul_upper(a1 as int, b1 as int, 3328, 3328);
            lemma_mul_upper(a1 as int, b0 as int, 3328, 3328);
            lemma_mul_upper(a0 as int, b1 as int, 3328, 3328);
            lemma_mul_upper(zeta as int, (a1 as int) * (b1 as int), 6657, 3328int * 3328);
        }
        let r0 = ((a0 as u64 * b0 as u64 + zeta as u64 * (a1 as u64 * b1 as u64)) % (Q as u64))
            as u16;
        let r1 = ((a1 as u64 * b0 as u64 + a0 as u64 * b1 as u64) % (Q as u64)) as u16;
        (r0, r1)
    }

    /// The 256 coefficients of the NTT-domain product, block by block.
    fn _ntt_coeff_mul(&self, rhs: &Ring) -> (r: Vec<u16>)
        requires
            self.wf(),
            rhs.wf(),
        ensures
            poly_wf(r@),
            r@ == spec_ntt_mul(self.coefficients@, rhs.coefficients@),
    {
        let ghost fv = self.coefficients@;
        let ghost gv = rhs.coefficients@;
        let mut out: Vec<u16> = Vec::new();
        let mut i: usize = 0;
        while i < 64
            invariant
                i <= 64,
                self.wf(),
                rhs.wf(),
                fv == self.coefficients@,
                gv == rhs.coefficients@,
                out@.len() == 4 * i,
                forall|t: int| 0 <= t < 4 * i ==> out@[t] == spec_ntt_mul(fv, gv)[t],
                forall|t: int| 0 <= t < 4 * i ==> out@[t] < Q,
            decreases 64 - i,
        {
            proof {
                lemma_zetas_reduced();
            }
            let zeta: u16 = ZETAS[64 + i];
            let neg_zeta: u16 = Q - zeta;
            let f0 = self.coefficients[4 * i];
            let f1 = self.coefficients[4 * i + 1];
            let f2 = self.coefficients[4 * i + 2];
            let f3 = self.coefficients[4 * i + 3];
            let g0 = rhs.coefficients[4 * i];
            let g1 = rhs.coefficients[4 * i + 1];
            let g2 = rhs.coefficients[4 * i + 2];
            let g3 = rhs.coefficients[4 * i + 3];
            let (r0, r1) = Self::_ntt_base_mul(f0, f1, g0, g1, zeta);
            let (r2, r3) = Self::_ntt_base_mul(f2, f3, g2, g3, neg_zeta);
            out.push(r0);
            out.push(r1);
            out.push(r2);
            out.push(r3);
            proof {
                let ii = i as int;
                lemma_fundamental_div_mod_converse(4 * ii, 4, ii, 0);
                lemma_fundamental_div_mod_converse(4 * ii + 1, 4, ii, 1);
                lemma_fundamental_div_mod_converse(4 * ii + 2, 4, ii, 2);
                lemma_fundamental_div_mod_converse(4 * ii + 3, 4, ii, 3);
                assert(out@[4 * ii] == spec_ntt_mul(fv, gv)[4 * ii]);
                assert(out@[4 * ii + 1] == spec_ntt_mul(fv, gv)[4 * ii + 1]);
                assert(out@[4 * ii + 2] == spec_ntt_mul(fv, gv)[4 * ii + 2]);
                assert(out@[4 * ii + 3] == spec_ntt_mul(fv, gv)[4 * ii + 3]);
            }
            i += 1;
        }
        proof {
            assert(out@ =~= spec_ntt_mul(fv, gv));
        }
        out
    }

    /// The NTT-domain product as a ring element.
    fn _ntt_mut(&self, rhs: &Ring) -> (r: Ring)
        requires
            self.wf(),
            rhs.wf(),
        ensures
            r.wf(),
            r.is_ntt == true,
            r.coefficients@ == spec_ntt_mul(self.coefficients@, rhs.coefficients@),
    {
        Ring { coefficients: self._ntt_coeff_mul(rhs), is_ntt: true }
    }

    /// Schoolbook multiplication over Z_q[x]/(x^256 + 1), term by term
    /// with the negacyclic wraparound.
    fn school_mul(&self, rhs: &Ring) -> (r: Ring)
        requires
            self.wf(),
            rhs.wf(),
        ensures
            r.wf(),
            r.is_ntt == false,
            r.coefficients@ == spec_school_mul(self.coefficients@, rhs.coefficients@),
    {
        let ghost av = self.coefficients@;
        let ghost bv = rhs.coefficients@;
        let mut out: Vec<u16> = Vec::new();
        let mut k: usize = 0;
        while k < 256
            invariant
                k <= 256,
                self.wf(),
                rhs.wf(),
                av == self.coefficients@,
                bv == rhs.coefficients@,
                out@.len() == k,
                forall|t: int| 0 <= t < k ==> out@[t] == spec_school_mul(av, bv)[t],
            decreases 256 - k,
        {
            let mut acc: u32 = 0;
            let mut i: usize = 0;
            while i < 256
                invariant
                    i <= 256,
                    k < 256,
                    self.wf(),
                    rhs.wf(),
                    av == self.coefficients@,
                    bv == rhs.coefficients@,
                    acc as int == spec_school_sum(av, bv, k as int, i as nat),
                    acc < Q,
                decreases 256 - i,
            {
                let term: u32 = if i <= k {
                    proof {
                        lemma_mul_upper(
                            av[i as int] as int,
                            bv[k as int - i] as int,
                            3328,
                            3328,
                        );
                    }
                    (self.coefficients[i] as u32 * rhs.coefficients[k - i] as u32) % (Q as u32)
                } else {
                    proof {
                        lemma_mul_upper(
                            av[i as int] as int,
                            bv[k as int - i + 256] as int,
                            3328,
                            3328,
                        );
                    }
                    (Q as u32 - (self.coefficients[i] as u32 * rhs.coefficients[k + 256 - i]
                        as u32) % (Q as u32)) % (Q as u32)
                };
                acc = (acc + term) % (Q as u32);
                i += 1;
            }
            out.push(acc as u16);
            k += 1;
        }
        proof {
            assert(out@ =~= spec_school_mul(av, bv));
        }
        Ring { coefficients: out, is_ntt: false }
    }

    /// Multiplication: schoolbook when both operands live in the normal
    /// domain, the base-case product when both live in the NTT domain;
    /// mixing domains fails with DomainMismatch.
    pub fn mul(&self, rhs: &Ring) -> (r: Result<Ring, MlKemError>)
        requires
            self.wf(),
            rhs.wf(),
        ensures
            r is Ok <==> self.is_ntt == rhs.is_ntt,
            r matches Ok(p) ==> {
                &&& p.wf()
                &&& p.is_ntt == self.is_ntt
                &&& (self.is_ntt ==> p.coefficients@ == spec_ntt_mul(
                    self.coefficients@,
                    rhs.coefficients@,
                ))
                &&& (!self.is_ntt ==> p.coefficients@ == spec_school_mul(
                    self.coefficients@,
                    rhs.coefficients@,
                ))
            },
            r matches Err(e) ==> e == MlKemError::DomainMismatch,
    {
        if self.is_ntt && rhs.is_ntt {
            Ok(self._ntt_mut(rhs))
        } else if !self.is_ntt && !rhs.is_ntt {
            Ok(self.school_mul(rhs))
        } else {
            Err(MlKemError::DomainMismatch)
        }
    }
}

} // verus!
