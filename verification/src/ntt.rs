//! The number-theoretic transform on R_q and its inverse, specified as a
//! cascade of butterfly passes over the zeta table.

use vstd::prelude::*;

use vstd::arithmetic::div_mod::lemma_fundamental_div_mod_converse;

use crate::ring::is_gap;
use crate::ring::poly_wf;
use crate::ring::Ring;
use crate::ring::NTT_F;
use crate::ring::Q;
use crate::ring::ZETAS;

verus! {

/// One forward butterfly pass with gap l: positions pair at distance l
/// inside layers of width 2l; the layer at t / (2l) uses the zeta at
/// index k0 + t / (2l).
pub open spec fn spec_ntt_pass(c: Seq<u16>, l: int, k0: int) -> Seq<u16> {
    Seq::new(256, |t: int| {
        let z = ZETAS[k0 + t / (2 * l)] as int;
        if t % (2 * l) < l {
            (((c[t] + (z * c[t + l]) % (Q as int)) % (Q as int)) as u16)
        } else {
            (((c[t - l] + Q - (z * c[t]) % (Q as int)) % (Q as int)) as u16)
        }
    })
}

/// The forward passes from gap l down to 2; the pass with gap l starts
/// at zeta index 128 / l.
pub open spec fn spec_ntt_from(c: Seq<u16>, l: int) -> Seq<u16>
    decreases l,
{
    if l < 2 {
        c
    } else {
        spec_ntt_from(spec_ntt_pass(c, l, 128int / l), l / 2)
    }
}

/// The forward NTT: all seven butterfly passes, gaps 128 down to 2.
pub open spec fn spec_ntt(c: Seq<u16>) -> Seq<u16> {
    spec_ntt_from(c, 128)
}

/// One inverse butterfly pass with gap l: the layer at t / (2l) uses the
/// zeta at index k0 - t / (2l).
pub open spec fn spec_inv_pass(c: Seq<u16>, l: int, k0: int) -> Seq<u16> {
    Seq::new(256, |t: int| {
        let z = ZETAS[k0 - t / (2 * l)] as int;
        if t % (2 * l) < l {
            (((c[t] + c[t + l]) % (Q as int)) as u16)
        } else {
            (((z * ((c[t] + Q - c[t - l]) % (Q as int))) % (Q as int)) as u16)
        }
    })
}

/// The inverse passes from gap l up to 128; the pass with gap l starts
/// at zeta index 256 / l - 1 and walks the table backwards.
pub open spec fn spec_inv_from(c: Seq<u16>, l: int) -> Seq<u16>
    decreases 256 - l,
{
    if l < 2 || l > 128 {
        c
    } else {
        spec_inv_from(spec_inv_pass(c, l, 256int / l - 1), 2 * l)
    }
}

/// The final scaling of the inverse NTT by f = 128^-1 mod q.
pub open spec fn spec_scale_poly(c: Seq<u16>) -> Seq<u16> {
    Seq::new(256, |i: int| ((c[i] * (NTT_F as int)) % (Q as int)) as u16)
}

/// The inverse NTT: seven butterfly passes, gaps 2 up to 128, then the
/// scaling by 128^-1.
pub open spec fn spec_inv_ntt(c: Seq<u16>) -> Seq<u16> {
    spec_scale_poly(spec_inv_from(c, 2))
}

/// Bounds on the m-th layer of a pass with gap l: the layer fits in the
/// 256 coefficients and its zeta index stays inside the table.
pub proof fn lemma_layer_facts(m: int, l: int)
    requires
        is_gap(l),
        2 <= l,
        0 <= m < 128int / l,
    ensures
        0 <= 2 * l * m,
        2 * l * m + 2 * l <= 256,
        m * (2 * l) == 2 * l * m,
        128int / l + m <= 127,
        256int / l - 1 - m >= 1,
        256int / l <= 128,
{
    if l == 2 {
        assert(2 * l * m == 4 * m);
    }
    if l == 4 {
        assert(2 * l * m == 8 * m);
    }
    if l == 8 {
        assert(2 * l * m == 16 * m);
    }
    if l == 16 {
        assert(2 * l * m == 32 * m);
    }
    if l == 32 {
        assert(2 * l * m == 64 * m);
    }
    if l == 64 {
        assert(2 * l * m == 128 * m);
    }
    if l == 128 {
        assert(2 * l * m == 256 * m);
    }
    assert(m * (2 * l) == 2 * l * m) by (nonlinear_arith);
}

/// Halving the gap after a forward pass doubles the zeta base index, and
/// a full pass of 128 / l layers covers all 256 positions.
pub proof fn lemma_gap_half(l: int)
    requires
        is_gap(l),
        2 <= l,
    ensures
        is_gap(l / 2),
        128int / (l / 2) == 128int / l + 128int / l,
        2 * l * (128int / l) == 256,
{
    if l == 2 {
        assert(128int / 1 == 128 && 128int / 2 == 64);
    }
    if l == 4 {
        assert(128int / 2 == 64 && 128int / 4 == 32);
    }
    if l == 8 {
        assert(128int / 4 == 32 && 128int / 8 == 16);
    }
    if l == 16 {
        assert(128int / 8 == 16 && 128int / 16 == 8);
    }
    if l == 32 {
        assert(128int / 16 == 8 && 128int / 32 == 4);
    }
    if l == 64 {
        assert(128int / 32 == 4 && 128int / 64 == 2);
    }
    if l == 128 {
        assert(128int / 64 == 2 && 128int / 128 == 1);
    }
}

/// Doubling the gap after an inverse pass: the zeta base index drops by
/// the number of layers, and a full pass covers all 256 positions.
pub proof fn lemma_gap_double(l: int)
    requires
        is_gap(l),
        2 <= l,
    ensures
        is_gap(2 * l) || 2 * l == 256,
        256int / (2 * l) == 256int / l - 128int / l,
        2 * l * (128int / l) == 256,
        128int / l >= 1,
{
    if l == 2 {
        assert(256int / 4 == 64 && 256int / 2 == 128 && 128int / 2 == 64);
    }
    if l == 4 {
        assert(256int / 8 == 32);
    }
    if l == 8 {
        assert(256int / 16 == 16);
    }
    if l == 16 {
        assert(256int / 32 == 8);
    }
    if l == 32 {
        assert(256int / 64 == 4);
    }
    if l == 64 {
        assert(256int / 128 == 2);
    }
    if l == 128 {
        assert(256int / 256 == 1);
    }
}

impl Ring {
    /// The forward NTT: maps a normal-domain element to the NTT domain.
    pub fn to_ntt(&self) -> (r: Ring)
        requires
            self.wf(),
            !self.is_ntt,
        ensures
            r.wf(),
            r.is_ntt == true,
            r.coefficients@ == spec_ntt(self.coefficients@),
    {
        let mut c: Vec<u16> = self.coefficients.clone();
        let mut k: usize = 1;
        let mut l: usize = 128;
        while l >= 2
            invariant
                poly_wf(c@),
                is_gap(l as int),
                k as int == 128int / l as int,
                spec_ntt_from(c@, l as int) == spec_ntt(self.coefficients@),
            decreases l,
        {
            let ghost pre = c@;
            let ghost k0 = k as int;
            let layers: usize = 128 / l;
            let mut m: usize = 0;
            while m < layers
                invariant
                    poly_wf(c@),
                    poly_wf(pre),
                    is_gap(l as int),
                    2 <= l,
                    k0 == 128int / l as int,
                    layers as int == 128int / l as int,
                    m <= layers,
                    k as int == k0 + m as int,
                    forall|t: int| 0 <= t < 2 * l * m ==> c@[t] == spec_ntt_pass(
                        pre,
                        l as int,
                        k0,
                    )[t],
                    forall|t: int| 2 * l * m <= t < 256 ==> c@[t] == pre[t],
                decreases layers - m,
            {
                proof {
                    lemma_layer_facts(m as int, l as int);
                }
                let start: usize = 2 * l * m;
                let zeta: u16 = ZETAS[k];
                proof {
                    assert(zeta == ZETAS[k0 + m as int]);
                }
                k += 1;
                let mut j: usize = start;
                while j < start + l
                    invariant
                        poly_wf(c@),
                        poly_wf(pre),
                        is_gap(l as int),
                        2 <= l,
                        k0 == 128int / l as int,
                        start as int == 2 * l as int * m as int,
                        m as int * (2 * l as int) == start as int,
                        start + 2 * l <= 256,
                        start <= j <= start + l,
                        zeta == ZETAS[k0 + m as int],
                        forall|t: int| 0 <= t < start ==> c@[t] == spec_ntt_pass(
                            pre,
                            l as int,
                            k0,
                        )[t],
                        forall|t: int| start <= t < j ==> c@[t] == spec_ntt_pass(
                            pre,
                            l as int,
                            k0,
                        )[t],
                        forall|t: int| j <= t < start + l ==> c@[t] == pre[t],
                        forall|t: int| start + l <= t < j + l ==> c@[t] == spec_ntt_pass(
                            pre,
                            l as int,
                            k0,
                        )[t],
                        forall|t: int| j + l <= t < 256 ==> c@[t] == pre[t],
                    decreases start + l - j,
                {
                    let cj: u32 = c[j] as u32;
                    let cjl: u32 = c[j + l] as u32;
                    proof {
                        assert((zeta as u64) * (cjl as u64) < 0x1_0000_0000u64) by (nonlinear_arith)
                            requires zeta <= 0xffff, cjl <= 0xffff;
                    }
                    let t_red: u32 = ((zeta as u64 * cjl as u64) % (Q as u64)) as u32;
                    let upper: u32 = (cj + Q as u32 - t_red) % (Q as u32);
                    let lower: u32 = (cj + t_red) % (Q as u32);
                    c.set(j + l, upper as u16);
                    c.set(j, lower as u16);
                    proof {
                        let tw = 2 * l as int;
                        lemma_fundamental_div_mod_converse(
                            j as int,
                            tw,
                            m as int,
                            j as int - start,
                        );
                        lemma_fundamental_div_mod_converse(
                            j as int + l,
                            tw,
                            m as int,
                            j as int - start + l,
                        );
                        assert(c@[j as int] == spec_ntt_pass(pre, l as int, k0)[j as int]);
                        assert(c@[j as int + l] == spec_ntt_pass(pre, l as int, k0)[j as int + l]);
                    }
                    j += 1;
                }
                proof {
                    assert(2 * l as int * (m as int + 1) == start as int + 2 * l as int)
                        by (nonlinear_arith)
                        requires start as int == 2 * l as int * m as int;
                }
                m += 1;
            }
            proof {
                lemma_gap_half(l as int);
                assert(c@ =~= spec_ntt_pass(pre, l as int, k0));
            }
            l = l / 2;
        }
        proof {
            assert(spec_ntt_from(c@, 1int) == c@);
        }
        Ring { coefficients: c, is_ntt: true }
    }

    /// The inverse NTT: maps an NTT-domain element back to the normal
    /// domain, scaling by 128^-1 mod q at the end.
    pub fn from_ntt(&self) -> (r: Ring)
        requires
            self.wf(),
            self.is_ntt,
        ensures
            r.wf(),
            r.is_ntt == false,
            r.coefficients@ == spec_inv_ntt(self.coefficients@),
    {
        let mut c: Vec<u16> = self.coefficients.clone();
        let mut k: usize = 127;
        let mut l: usize = 2;
        while l <= 128
            invariant
                poly_wf(c@),
                is_gap(l as int) || l == 256,
                2 <= l,
                k as int == 256int / l as int - 1,
                spec_inv_from(c@, l as int) == spec_inv_from(self.coefficients@, 2int),
            decreases 256 - l,
        {
            let ghost pre = c@;
            let ghost k0 = k as int;
            let layers: usize = 128 / l;
            let mut m: usize = 0;
            while m < layers
                invariant
                    poly_wf(c@),
                    poly_wf(pre),
                    is_gap(l as int),
                    2 <= l <= 128,
                    k0 == 256int / l as int - 1,
                    layers as int == 128int / l as int,
                    m <= layers,
                    k as int == k0 - m as int,
                    forall|t: int| 0 <= t < 2 * l * m ==> c@[t] == spec_inv_pass(
                        pre,
                        l as int,
                        k0,
                    )[t],
                    forall|t: int| 2 * l * m <= t < 256 ==> c@[t] == pre[t],
                decreases layers - m,
            {
                proof {
                    lemma_layer_facts(m as int, l as int);
                }
                let start: usize = 2 * l * m;
                let zeta: u16 = ZETAS[k];
                proof {
                    assert(zeta == ZETAS[k0 - m as int]);
                }
                k -= 1;
                let mut j: usize = start;
                while j < start + l
                    invariant
                        poly_wf(c@),
                        poly_wf(pre),
                        is_gap(l as int),
                        2 <= l <= 128,
                        k0 == 256int / l as int - 1,
                        start as int == 2 * l as int * m as int,
                        m as int * (2 * l as int) == start as int,
                        start + 2 * l <= 256,
                        start <= j <= start + l,
                        zeta == ZETAS[k0 - m as int],
                        forall|t: int| 0 <= t < start ==> c@[t] == spec_inv_pass(
                            pre,
                            l as int,
                            k0,
                        )[t],
                        forall|t: int| start <= t < j ==> c@[t] == spec_inv_pass(
                            pre,
                            l as int,
                            k0,
                        )[t],
                        forall|t: int| j <= t < start + l ==> c@[t] == pre[t],
                        forall|t: int| start + l <= t < j + l ==> c@[t] == spec_inv_pass(
                            pre,
                            l as int,
                            k0,
                        )[t],
                        forall|t: int| j + l <= t < 256 ==> c@[t] == pre[t],
                    decreases start + l - j,
                {
                    let cj: u32 = c[j] as u32;
                    let cjl: u32 = c[j + l] as u32;
                    let lower: u32 = (cj + cjl) % (Q as u32);
                    let diff: u32 = (cjl + Q as u32 - cj) % (Q as u32);
                    proof {
                        assert((zeta as u64) * (diff as u64) < 0x1_0000_0000u64) by (nonlinear_arith)
                            requires zeta <= 0xffff, diff <= 0xffff;
                    }
                    let upper: u32 = ((zeta as u64 * diff as u64) % (Q as u64)) as u32;
                    c.set(j + l, upper as u16);
                    c.set(j, lower as u16);
                    proof {
                        let tw = 2 * l as int;
                        lemma_fundamental_div_mod_converse(
                            j as int,
                            tw,
                            m as int,
                            j as int - start,
                        );
                        lemma_fundamental_div_mod_converse(
                            j as int + l,
                            tw,
                            m as int,
                            j as int - start + l,
                        );
                        assert(c@[j as int] == spec_inv_pass(pre, l as int, k0)[j as int]);
                        assert(c@[j as int + l] == spec_inv_pass(pre, l as int, k0)[j as int + l]);
                    }
                    j += 1;
                }
                proof {
                    assert(2 * l as int * (m as int + 1) == start as int + 2 * l as int)
                        by (nonlinear_arith)
                        requires start as int == 2 * l as int * m as int;
                }
                m += 1;
            }
            proof {
                lemma_gap_double(l as int);
                assert(c@ =~= spec_inv_pass(pre, l as int, k0));
            }
            l = l * 2;
        }
        // Final scaling by f = 128^-1 mod q.
        let mut out: Vec<u16> = Vec::new();
        let mut i: usize = 0;
        while i < 256
            invariant
                poly_wf(c@),
                spec_inv_from(c@, 256int) == spec_inv_from(self.coefficients@, 2int),
                out@.len() == i,
                i <= 256,
                forall|t: int| 0 <= t < i ==> out@[t] == spec_scale_poly(c@)[t],
            decreases 256 - i,
        {
            out.push(((c[i] as u32 * NTT_F as u32) % (Q as u32)) as u16);
            i += 1;
        }
        proof {
            assert(spec_inv_from(c@, 256int) == c@);
            assert(out@ =~= spec_scale_poly(spec_inv_from(self.coefficients@, 2int)));
        }
        Ring { coefficients: out, is_ntt: false }
    }
}

} // verus!

