use vstd::prelude::*;

use crate::errors::MlKemError;

verus! {

/// The prime modulus q of R_q.
pub const Q: u16 = 3329;

/// 128^-1 mod q, the scale factor applied at the end of the inverse NTT.
pub const NTT_F: u16 = 3303;

/// The bit-reversed powers of the root of unity zeta = 17 modulo q that
/// drive the number-theoretic transform.
pub const ZETAS: [u16; 128] = [
    1, 1729, 2580, 3289, 2642, 630, 1897, 848, 1062, 1919, 193, 797, 2786, 3260, 569,
    1746, 296, 2447, 1339, 1476, 3046, 56, 2240, 1333, 1426, 2094, 535, 2882, 2393,
    2879, 1974, 821, 289, 331, 3253, 1756, 1197, 2304, 2277, 2055, 650, 1977, 2513,
    632, 2865, 33, 1320, 1915, 2319, 1435, 807, 452, 1438, 2868, 1534, 2402, 2647,
    2617, 1481, 648, 2474, 3110, 1227, 910, 17, 2761, 583, 2649, 1637, 723, 2288, 1100,
    1409, 2662, 3281, 233, 756, 2156, 3015, 3050, 1703, 1651, 2789, 1789, 1847, 952,
    1461, 2687, 939, 2308, 2437, 2388, 733, 2337, 268, 641, 1584, 2298, 2037, 3220,
    375, 2549, 2090, 1645, 1063, 319, 2773, 757, 2099, 561, 2466, 2594, 2804, 1092,
    403, 1026, 1143, 2150, 2775, 886, 1722, 1212, 1874, 1029, 2110, 2935, 885, 2154,
];

/// A coefficient sequence is well formed when it has exactly 256 entries,
/// all reduced modulo q.
pub open spec fn poly_wf(s: Seq<u16>) -> bool {
    &&& s.len() == 256
    &&& forall|i: int| 0 <= i < 256 ==> s[i] < Q
}

/// Coefficient-wise addition modulo q.
pub open spec fn spec_add_poly(a: Seq<u16>, b: Seq<u16>) -> Seq<u16> {
    Seq::new(256, |i: int| (((a[i] + b[i]) % (Q as int)) as u16))
}

/// Coefficient-wise subtraction modulo q: a + (q - b) mod q.
pub open spec fn spec_sub_poly(a: Seq<u16>, b: Seq<u16>) -> Seq<u16> {
    Seq::new(256, |i: int| (((a[i] + Q - b[i]) % (Q as int)) as u16))
}

/// The all-zero coefficient sequence.
pub open spec fn spec_zero_poly() -> Seq<u16> {
    Seq::new(256, |i: int| 0u16)
}


/// Every entry of the zeta table is reduced modulo q.
pub proof fn lemma_zetas_reduced()
    ensures
        forall|k: int| 0 <= k < 128 ==> 1 <= #[trigger] ZETAS[k] < Q,
{
}

/// The gaps a butterfly pass of the NTT can have, plus the value 1 the
/// forward loop ends on.
pub open spec fn is_gap(l: int) -> bool {
    l == 1 || l == 2 || l == 4 || l == 8 || l == 16 || l == 32 || l == 64 || l == 128
}

/// A polynomial in R_q = Z_q[x]/(x^256 + 1): 256 coefficients, each
/// reduced modulo q, and a tag saying whether the value lives in the
/// normal or in the NTT domain.
#[derive(Debug)]
pub struct Ring {
    pub coefficients: Vec<u16>,
    pub is_ntt: bool,
}

impl Ring {
    /// All coefficients are reduced modulo q and there are exactly 256
    /// of them.
    pub open spec fn wf(self) -> bool {
        poly_wf(self.coefficients@)
    }

    /// Wraps a reduced coefficient vector with the given domain tag.
    pub fn new(coefficients: Vec<u16>, is_ntt: bool) -> (r: Ring)
        requires
            poly_wf(coefficients@),
        ensures
            r.wf(),
            r.coefficients@ == coefficients@,
            r.is_ntt == is_ntt,
    {
        Ring { coefficients, is_ntt }
    }

    /// The zero polynomial, in the given domain.
    pub fn zero_in(is_ntt: bool) -> (r: Ring)
        ensures
            r.wf(),
            r.coefficients@ == spec_zero_poly(),
            r.is_ntt == is_ntt,
    {
        let mut coefficients: Vec<u16> = Vec::new();
        let mut i: usize = 0;
        while i < 256
            invariant
                i <= 256,
                coefficients@.len() == i,
                forall|j: int| 0 <= j < i ==> coefficients@[j] == 0u16,
            decreases 256 - i,
        {
            coefficients.push(0u16);
            i += 1;
        }
        let r = Ring { coefficients, is_ntt };
        proof {
            assert(r.coefficients@ =~= spec_zero_poly());
        }
        r
    }

    /// The zero polynomial in the normal domain.
    pub fn zero() -> (r: Ring)
        ensures
            r.wf(),
            r.coefficients@ == spec_zero_poly(),
            r.is_ntt == false,
    {
        Self::zero_in(false)
    }

    /// The constant polynomial 1, in the normal domain.
    pub fn one() -> (r: Ring)
        ensures
            r.wf(),
            r.coefficients@ == spec_zero_poly().update(0, 1u16),
            r.is_ntt == false,
    {
        let mut r = Self::zero_in(false);
        r.coefficients.set(0, 1u16);
        proof {
            assert(r.coefficients@ =~= spec_zero_poly().update(0, 1u16));
        }
        r
    }

    /// The polynomial x, in the normal domain.
    pub fn x() -> (r: Ring)
        ensures
            r.wf(),
            r.coefficients@ == spec_zero_poly().update(1, 1u16),
            r.is_ntt == false,
    {
        let mut r = Self::zero_in(false);
        r.coefficients.set(1, 1u16);
        proof {
            assert(r.coefficients@ =~= spec_zero_poly().update(1, 1u16));
        }
        r
    }

    /// Coefficient-wise addition modulo q. Addition preserves the domain,
    /// so both operands must carry the same tag.
    pub fn add(&self, rhs: &Ring) -> (r: Ring)
        requires
            self.wf(),
            rhs.wf(),
            self.is_ntt == rhs.is_ntt,
        ensures
            r.wf(),
            r.is_ntt == self.is_ntt,
            r.coefficients@ == spec_add_poly(self.coefficients@, rhs.coefficients@),
    {
        let mut out: Vec<u16> = Vec::new();
        let mut i: usize = 0;
        while i < 256
            invariant
                i <= 256,
                self.wf(),
                rhs.wf(),
                out@.len() == i,
                forall|j: int| 0 <= j < i
                    ==> out@[j] == spec_add_poly(self.coefficients@, rhs.coefficients@)[j],
            decreases 256 - i,
        {
            let s: u32 = self.coefficients[i] as u32 + rhs.coefficients[i] as u32;
            out.push((s % (Q as u32)) as u16);
            i += 1;
        }
        let r = Ring { coefficients: out, is_ntt: self.is_ntt };
        proof {
            assert(r.coefficients@ =~= spec_add_poly(self.coefficients@, rhs.coefficients@));
        }
        r
    }

    /// Coefficient-wise subtraction modulo q, computed as
    /// a + (q - b) mod q. Subtraction preserves the domain.
    pub fn sub(&self, rhs: &Ring) -> (r: Ring)
        requires
            self.wf(),
            rhs.wf(),
            self.is_ntt == rhs.is_ntt,
        ensures
            r.wf(),
            r.is_ntt == self.is_ntt,
            r.coefficients@ == spec_sub_poly(self.coefficients@, rhs.coefficients@),
    {
        let mut out: Vec<u16> = Vec::new();
        let mut i: usize = 0;
        while i < 256
            invariant
                i <= 256,
                self.wf(),
                rhs.wf(),
                out@.len() == i,
                forall|j: int| 0 <= j < i
                    ==> out@[j] == spec_sub_poly(self.coefficients@, rhs.coefficients@)[j],
            decreases 256 - i,
        {
            let s: u32 = self.coefficients[i] as u32 + Q as u32 - rhs.coefficients[i] as u32;
            out.push((s % (Q as u32)) as u16);
            i += 1;
        }
        let r = Ring { coefficients: out, is_ntt: self.is_ntt };
        proof {
            assert(r.coefficients@ =~= spec_sub_poly(self.coefficients@, rhs.coefficients@));
        }
        r
    }
}

} // verus!
