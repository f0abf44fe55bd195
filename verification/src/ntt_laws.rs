//! The number-theoretic transform and its inverse undo one another:
//! each inverse butterfly pass cancels the matching forward pass up to a
//! factor of two, and the final scaling by 128^-1 removes the factors.

use vstd::prelude::*;

use vstd::arithmetic::div_mod::lemma_add_mod_noop;
use vstd::arithmetic::div_mod::lemma_add_mod_noop_right;
use vstd::arithmetic::div_mod::lemma_fundamental_div_mod;
use vstd::arithmetic::div_mod::lemma_mod_add_multiples_vanish;
use vstd::arithmetic::div_mod::lemma_mod_bound;
use vstd::arithmetic::div_mod::lemma_mod_multiples_vanish;
use vstd::arithmetic::div_mod::lemma_mul_mod_noop_left;
use vstd::arithmetic::div_mod::lemma_mul_mod_noop_right;
use vstd::arithmetic::div_mod::lemma_small_mod;
use vstd::arithmetic::div_mod::lemma_sub_mod_noop;
use vstd::arithmetic::div_mod::lemma_sub_mod_noop_right;

use crate::ntt::spec_inv_from;
use crate::ntt::spec_inv_ntt;
use crate::ntt::spec_inv_pass;
use crate::ntt::spec_ntt;
use crate::ntt::spec_ntt_from;
use crate::ntt::spec_ntt_pass;
use crate::ntt::spec_scale_poly;
use crate::ring::is_gap;
use crate::ring::NTT_F;
use crate::ring::poly_wf;
use crate::ring::Q;
use crate::ring::ZETAS;

verus! {

/// The zeta index the inverse pass pairs with a forward index: within
/// the level [2^t, 2^(t+1)) of the bit-reversed table, index i pairs
/// with 3 * 2^t - 1 - i.
pub open spec fn zeta_partner(i: int) -> int {
    if i < 2 {
        2 - i
    } else
    if i < 4 {
        5 - i
    } else
    if i < 8 {
        11 - i
    } else
    if i < 16 {
        23 - i
    } else
    if i < 32 {
        47 - i
    } else
    if i < 64 {
        95 - i
    } else
    if i < 128 {
        191 - i
    } else {
        0
    }
}

/// Paired zeta table entries multiply to q - 1: the partner is the
/// negated inverse modulo q, which is what lets a Gentleman-Sande pass
/// undo a Cooley-Tukey pass.
pub proof fn lemma_zeta_pair(i: int)
    requires
        1 <= i < 128,
    ensures
        (ZETAS[i] * ZETAS[zeta_partner(i)]) % (Q as int) == Q - 1,
        1 <= zeta_partner(i) < 128,
{
    if i == 1 {
        assert((ZETAS[1] * ZETAS[1]) % (Q as int) == Q - 1);
    }
    if i == 2 {
        assert((ZETAS[2] * ZETAS[3]) % (Q as int) == Q - 1);
    }
    if i == 3 {
        assert((ZETAS[3] * ZETAS[2]) % (Q as int) == Q - 1);
    }
    if i == 4 {
        assert((ZETAS[4] * ZETAS[7]) % (Q as int) == Q - 1);
    }
    if i == 5 {
        assert((ZETAS[5] * ZETAS[6]) % (Q as int) == Q - 1);
    }
    if i == 6 {
        assert((ZETAS[6] * ZETAS[5]) % (Q as int) == Q - 1);
    }
    if i == 7 {
        assert((ZETAS[7] * ZETAS[4]) % (Q as int) == Q - 1);
    }
    if i == 8 {
        assert((ZETAS[8] * ZETAS[15]) % (Q as int) == Q - 1);
    }
    if i == 9 {
        assert((ZETAS[9] * ZETAS[14]) % (Q as int) == Q - 1);
    }
    if i == 10 {
        assert((ZETAS[10] * ZETAS[13]) % (Q as int) == Q - 1);
    }
    if i == 11 {
        assert((ZETAS[11] * ZETAS[12]) % (Q as int) == Q - 1);
    }
    if i == 12 {
        assert((ZETAS[12] * ZETAS[11]) % (Q as int) == Q - 1);
    }
    if i == 13 {
        assert((ZETAS[13] * ZETAS[10]) % (Q as int) == Q - 1);
    }
    if i == 14 {
        assert((ZETAS[14] * ZETAS[9]) % (Q as int) == Q - 1);
    }
    if i == 15 {
        assert((ZETAS[15] * ZETAS[8]) % (Q as int) == Q - 1);
    }
    if i == 16 {
        assert((ZETAS[16] * ZETAS[31]) % (Q as int) == Q - 1);
    }
    if i == 17 {
        assert((ZETAS[17] * ZETAS[30]) % (Q as int) == Q - 1);
    }
    if i == 18 {
        assert((ZETAS[18] * ZETAS[29]) % (Q as int) == Q - 1);
    }
    if i == 19 {
        assert((ZETAS[19] * ZETAS[28]) % (Q as int) == Q - 1);
    }
    if i == 20 {
        assert((ZETAS[20] * ZETAS[27]) % (Q as int) == Q - 1);
    }
    if i == 21 {
        assert((ZETAS[21] * ZETAS[26]) % (Q as int) == Q - 1);
    }
    if i == 22 {
        assert((ZETAS[22] * ZETAS[25]) % (Q as int) == Q - 1);
    }
    if i == 23 {
        assert((ZETAS[23] * ZETAS[24]) % (Q as int) == Q - 1);
    }
    if i == 24 {
        assert((ZETAS[24] * ZETAS[23]) % (Q as int) == Q - 1);
    }
    if i == 25 {
        assert((ZETAS[25] * ZETAS[22]) % (Q as int) == Q - 1);
    }
    if i == 26 {
        assert((ZETAS[26] * ZETAS[21]) % (Q as int) == Q - 1);
    }
    if i == 27 {
        assert((ZETAS[27] * ZETAS[20]) % (Q as int) == Q - 1);
    }
    if i == 28 {
        assert((ZETAS[28] * ZETAS[19]) % (Q as int) == Q - 1);
    }
    if i == 29 {
        assert((ZETAS[29] * ZETAS[18]) % (Q as int) == Q - 1);
    }
    if i == 30 {
        assert((ZETAS[30] * ZETAS[17]) % (Q as int) == Q - 1);
    }
    if i == 31 {
        assert((ZETAS[31] * ZETAS[16]) % (Q as int) == Q - 1);
    }
    if i == 32 {
        assert((ZETAS[32] * ZETAS[63]) % (Q as int) == Q - 1);
    }
    if i == 33 {
        assert((ZETAS[33] * ZETAS[62]) % (Q as int) == Q - 1);
    }
    if i == 34 {
        assert((ZETAS[34] * ZETAS[61]) % (Q as int) == Q - 1);
    }
    if i == 35 {
        assert((ZETAS[35] * ZETAS[60]) % (Q as int) == Q - 1);
    }
    if i == 36 {
        assert((ZETAS[36] * ZETAS[59]) % (Q as int) == Q - 1);
    }
    if i == 37 {
        assert((ZETAS[37] * ZETAS[58]) % (Q as int) == Q - 1);
    }
    if i == 38 {
        assert((ZETAS[38] * ZETAS[57]) % (Q as int) == Q - 1);
    }
    if i == 39 {
        assert((ZETAS[39] * ZETAS[56]) % (Q as int) == Q - 1);
    }
    if i == 40 {
        assert((ZETAS[40] * ZETAS[55]) % (Q as int) == Q - 1);
    }
    if i == 41 {
        assert((ZETAS[41] * ZETAS[54]) % (Q as int) == Q - 1);
    }
    if i == 42 {
        assert((ZETAS[42] * ZETAS[53]) % (Q as int) == Q - 1);
    }
    if i == 43 {
        assert((ZETAS[43] * ZETAS[52]) % (Q as int) == Q - 1);
    }
    if i == 44 {
        assert((ZETAS[44] * ZETAS[51]) % (Q as int) == Q - 1);
    }
    if i == 45 {
        assert((ZETAS[45] * ZETAS[50]) % (Q as int) == Q - 1);
    }
    if i == 46 {
        assert((ZETAS[46] * ZETAS[49]) % (Q as int) == Q - 1);
    }
    if i == 47 {
        assert((ZETAS[47] * ZETAS[48]) % (Q as int) == Q - 1);
    }
    if i == 48 {
        assert((ZETAS[48] * ZETAS[47]) % (Q as int) == Q - 1);
    }
    if i == 49 {
        assert((ZETAS[49] * ZETAS[46]) % (Q as int) == Q - 1);
    }
    if i == 50 {
        assert((ZETAS[50] * ZETAS[45]) % (Q as int) == Q - 1);
    }
    if i == 51 {
        assert((ZETAS[51] * ZETAS[44]) % (Q as int) == Q - 1);
    }
    if i == 52 {
        assert((ZETAS[52] * ZETAS[43]) % (Q as int) == Q - 1);
    }
    if i == 53 {
        assert((ZETAS[53] * ZETAS[42]) % (Q as int) == Q - 1);
    }
    if i == 54 {
        assert((ZETAS[54] * ZETAS[41]) % (Q as int) == Q - 1);
    }
    if i == 55 {
        assert((ZETAS[55] * ZETAS[40]) % (Q as int) == Q - 1);
    }
    if i == 56 {
        assert((ZETAS[56] * ZETAS[39]) % (Q as int) == Q - 1);
    }
    if i == 57 {
        assert((ZETAS[57] * ZETAS[38]) % (Q as int) == Q - 1);
    }
    if i == 58 {
        assert((ZETAS[58] * ZETAS[37]) % (Q as int) == Q - 1);
    }
    if i == 59 {
        assert((ZETAS[59] * ZETAS[36]) % (Q as int) == Q - 1);
    }
    if i == 60 {
        assert((ZETAS[60] * ZETAS[35]) % (Q as int) == Q - 1);
    }
    if i == 61 {
        assert((ZETAS[61] * ZETAS[34]) % (Q as int) == Q - 1);
    }
    if i == 62 {
        assert((ZETAS[62] * ZETAS[33]) % (Q as int) == Q - 1);
    }
    if i == 63 {
        assert((ZETAS[63] * ZETAS[32]) % (Q as int) == Q - 1);
    }
    if i == 64 {
        assert((ZETAS[64] * ZETAS[127]) % (Q as int) == Q - 1);
    }
    if i == 65 {
        assert((ZETAS[65] * ZETAS[126]) % (Q as int) == Q - 1);
    }
    if i == 66 {
        assert((ZETAS[66] * ZETAS[125]) % (Q as int) == Q - 1);
    }
    if i == 67 {
        assert((ZETAS[67] * ZETAS[124]) % (Q as int) == Q - 1);
    }
    if i == 68 {
        assert((ZETAS[68] * ZETAS[123]) % (Q as int) == Q - 1);
    }
    if i == 69 {
        assert((ZETAS[69] * ZETAS[122]) % (Q as int) == Q - 1);
    }
    if i == 70 {
        assert((ZETAS[70] * ZETAS[121]) % (Q as int) == Q - 1);
    }
    if i == 71 {
        assert((ZETAS[71] * ZETAS[120]) % (Q as int) == Q - 1);
    }
    if i == 72 {
        assert((ZETAS[72] * ZETAS[119]) % (Q as int) == Q - 1);
    }
    if i == 73 {
        assert((ZETAS[73] * ZETAS[118]) % (Q as int) == Q - 1);
    }
    if i == 74 {
        assert((ZETAS[74] * ZETAS[117]) % (Q as int) == Q - 1);
    }
    if i == 75 {
        assert((ZETAS[75] * ZETAS[116]) % (Q as int) == Q - 1);
    }
    if i == 76 {
        assert((ZETAS[76] * ZETAS[115]) % (Q as int) == Q - 1);
    }
    if i == 77 {
        assert((ZETAS[77] * ZETAS[114]) % (Q as int) == Q - 1);
    }
    if i == 78 {
        assert((ZETAS[78] * ZETAS[113]) % (Q as int) == Q - 1);
    }
    if i == 79 {
        assert((ZETAS[79] * ZETAS[112]) % (Q as int) == Q - 1);
    }
    if i == 80 {
        assert((ZETAS[80] * ZETAS[111]) % (Q as int) == Q - 1);
    }
    if i == 81 {
        assert((ZETAS[81] * ZETAS[110]) % (Q as int) == Q - 1);
    }
    if i == 82 {
        assert((ZETAS[82] * ZETAS[109]) % (Q as int) == Q - 1);
    }
    if i == 83 {
        assert((ZETAS[83] * ZETAS[108]) % (Q as int) == Q - 1);
    }
    if i == 84 {
        assert((ZETAS[84] * ZETAS[107]) % (Q as int) == Q - 1);
    }
    if i == 85 {
        assert((ZETAS[85] * ZETAS[106]) % (Q as int) == Q - 1);
    }
    if i == 86 {
        assert((ZETAS[86] * ZETAS[105]) % (Q as int) == Q - 1);
    }
    if i == 87 {
        assert((ZETAS[87] * ZETAS[104]) % (Q as int) == Q - 1);
    }
    if i == 88 {
        assert((ZETAS[88] * ZETAS[103]) % (Q as int) == Q - 1);
    }
    if i == 89 {
        assert((ZETAS[89] * ZETAS[102]) % (Q as int) == Q - 1);
    }
    if i == 90 {
        assert((ZETAS[90] * ZETAS[101]) % (Q as int) == Q - 1);
    }
    if i == 91 {
        assert((ZETAS[91] * ZETAS[100]) % (Q as int) == Q - 1);
    }
    if i == 92 {
        assert((ZETAS[92] * ZETAS[99]) % (Q as int) == Q - 1);
    }
    if i == 93 {
        assert((ZETAS[93] * ZETAS[98]) % (Q as int) == Q - 1);
    }
    if i == 94 {
        assert((ZETAS[94] * ZETAS[97]) % (Q as int) == Q - 1);
    }
    if i == 95 {
        assert((ZETAS[95] * ZETAS[96]) % (Q as int) == Q - 1);
    }
    if i == 96 {
        assert((ZETAS[96] * ZETAS[95]) % (Q as int) == Q - 1);
    }
    if i == 97 {
        assert((ZETAS[97] * ZETAS[94]) % (Q as int) == Q - 1);
    }
    if i == 98 {
        assert((ZETAS[98] * ZETAS[93]) % (Q as int) == Q - 1);
    }
    if i == 99 {
        assert((ZETAS[99] * ZETAS[92]) % (Q as int) == Q - 1);
    }
    if i == 100 {
        assert((ZETAS[100] * ZETAS[91]) % (Q as int) == Q - 1);
    }
    if i == 101 {
        assert((ZETAS[101] * ZETAS[90]) % (Q as int) == Q - 1);
    }
    if i == 102 {
        assert((ZETAS[102] * ZETAS[89]) % (Q as int) == Q - 1);
    }
    if i == 103 {
        assert((ZETAS[103] * ZETAS[88]) % (Q as int) == Q - 1);
    }
    if i == 104 {
        assert((ZETAS[104] * ZETAS[87]) % (Q as int) == Q - 1);
    }
    if i == 105 {
        assert((ZETAS[105] * ZETAS[86]) % (Q as int) == Q - 1);
    }
    if i == 106 {
        assert((ZETAS[106] * ZETAS[85]) % (Q as int) == Q - 1);
    }
    if i == 107 {
        assert((ZETAS[107] * ZETAS[84]) % (Q as int) == Q - 1);
    }
    if i == 108 {
        assert((ZETAS[108] * ZETAS[83]) % (Q as int) == Q - 1);
    }
    if i == 109 {
        assert((ZETAS[109] * ZETAS[82]) % (Q as int) == Q - 1);
    }
    if i == 110 {
        assert((ZETAS[110] * ZETAS[81]) % (Q as int) == Q - 1);
    }
    if i == 111 {
        assert((ZETAS[111] * ZETAS[80]) % (Q as int) == Q - 1);
    }
    if i == 112 {
        assert((ZETAS[112] * ZETAS[79]) % (Q as int) == Q - 1);
    }
    if i == 113 {
        assert((ZETAS[113] * ZETAS[78]) % (Q as int) == Q - 1);
    }
    if i == 114 {
        assert((ZETAS[114] * ZETAS[77]) % (Q as int) == Q - 1);
    }
    if i == 115 {
        assert((ZETAS[115] * ZETAS[76]) % (Q as int) == Q - 1);
    }
    if i == 116 {
        assert((ZETAS[116] * ZETAS[75]) % (Q as int) == Q - 1);
    }
    if i == 117 {
        assert((ZETAS[117] * ZETAS[74]) % (Q as int) == Q - 1);
    }
    if i == 118 {
        assert((ZETAS[118] * ZETAS[73]) % (Q as int) == Q - 1);
    }
    if i == 119 {
        assert((ZETAS[119] * ZETAS[72]) % (Q as int) == Q - 1);
    }
    if i == 120 {
        assert((ZETAS[120] * ZETAS[71]) % (Q as int) == Q - 1);
    }
    if i == 121 {
        assert((ZETAS[121] * ZETAS[70]) % (Q as int) == Q - 1);
    }
    if i == 122 {
        assert((ZETAS[122] * ZETAS[69]) % (Q as int) == Q - 1);
    }
    if i == 123 {
        assert((ZETAS[123] * ZETAS[68]) % (Q as int) == Q - 1);
    }
    if i == 124 {
        assert((ZETAS[124] * ZETAS[67]) % (Q as int) == Q - 1);
    }
    if i == 125 {
        assert((ZETAS[125] * ZETAS[66]) % (Q as int) == Q - 1);
    }
    if i == 126 {
        assert((ZETAS[126] * ZETAS[65]) % (Q as int) == Q - 1);
    }
    if i == 127 {
        assert((ZETAS[127] * ZETAS[64]) % (Q as int) == Q - 1);
    }
}

/// Every position below 256 lies in a full layer of width 2l, and its
/// layer index stays below 128 / l.
pub proof fn lemma_pos_layer(t: int, l: int)
    requires
        is_gap(l),
        2 <= l,
        0 <= t < 256,
    ensures
        0 <= t / (2 * l) < 128int / l,
        t == (2 * l) * (t / (2 * l)) + t % (2 * l),
        0 <= t % (2 * l) < 2 * l,
        (2 * l) * (t / (2 * l)) + 2 * l <= 256,
{
    if l == 2 {
        lemma_fundamental_div_mod(t, 4);
        lemma_mod_bound(t, 4);
        assert(0 <= t / 4 < 64);
        assert(4 * (t / 4) + 4 <= 256);
    }
    if l == 4 {
        lemma_fundamental_div_mod(t, 8);
        lemma_mod_bound(t, 8);
        assert(0 <= t / 8 < 32);
        assert(8 * (t / 8) + 8 <= 256);
    }
    if l == 8 {
        lemma_fundamental_div_mod(t, 16);
        lemma_mod_bound(t, 16);
        assert(0 <= t / 16 < 16);
        assert(16 * (t / 16) + 16 <= 256);
    }
    if l == 16 {
        lemma_fundamental_div_mod(t, 32);
        lemma_mod_bound(t, 32);
        assert(0 <= t / 32 < 8);
        assert(32 * (t / 32) + 32 <= 256);
    }
    if l == 32 {
        lemma_fundamental_div_mod(t, 64);
        lemma_mod_bound(t, 64);
        assert(0 <= t / 64 < 4);
        assert(64 * (t / 64) + 64 <= 256);
    }
    if l == 64 {
        lemma_fundamental_div_mod(t, 128);
        lemma_mod_bound(t, 128);
        assert(0 <= t / 128 < 2);
        assert(128 * (t / 128) + 128 <= 256);
    }
    if l == 128 {
        lemma_fundamental_div_mod(t, 256);
        lemma_mod_bound(t, 256);
        assert(0 <= t / 256 < 1);
        assert(256 * (t / 256) + 256 <= 256);
    }
}

/// The inverse pass at layer m of gap l reads the partner of the zeta
/// the forward pass used there.
pub proof fn lemma_partner_index(l: int, m: int)
    requires
        is_gap(l),
        2 <= l,
        0 <= m < 128int / l,
    ensures
        zeta_partner(128int / l + m) == 256int / l - 1 - m,
        1 <= 128int / l + m < 128,
{
    if l == 2 {
        assert(zeta_partner(64 + m) == 128 - 1 - m);
    }
    if l == 4 {
        assert(zeta_partner(32 + m) == 64 - 1 - m);
    }
    if l == 8 {
        assert(zeta_partner(16 + m) == 32 - 1 - m);
    }
    if l == 16 {
        assert(zeta_partner(8 + m) == 16 - 1 - m);
    }
    if l == 32 {
        assert(zeta_partner(4 + m) == 8 - 1 - m);
    }
    if l == 64 {
        assert(zeta_partner(2 + m) == 4 - 1 - m);
    }
    if l == 128 {
        assert(zeta_partner(1 + m) == 2 - 1 - m);
    }
}

/// Every coefficient multiplied by a, then reduced modulo q.
pub open spec fn spec_scale_mul(c: Seq<u16>, a: int) -> Seq<u16> {
    Seq::new(256, |i: int| ((a * c[i]) % (Q as int)) as u16)
}

/// The sum of the two forward butterfly outputs is twice the lower
/// input, modulo q.
proof fn lemma_butterfly_sum(x: int, e: int)
    requires
        0 <= x < Q,
        0 <= e < Q,
    ensures
        ((x + e) % (Q as int) + (x + Q - e) % (Q as int)) % (Q as int) == (2 * x) % (Q as int),
{
    let q = Q as int;
    lemma_add_mod_noop(x + e, x + q - e, q);
    lemma_mod_add_multiples_vanish(2 * x, q);
}

/// The difference of the two forward butterfly outputs, scaled by the
/// paired zeta, is twice the upper input, modulo q.
proof fn lemma_butterfly_diff(x: int, y: int, z: int, z2: int)
    requires
        0 <= x < Q,
        0 <= y < Q,
        0 <= z,
        0 <= z2,
        (z * z2) % (Q as int) == Q - 1,
    ensures
        (z2 * (((x + Q - (z * y) % (Q as int)) % (Q as int) + Q - (x + (z * y) % (Q as int)) % (
        Q as int)) % (Q as int))) % (Q as int) == (2 * y) % (Q as int),
{
    let q = Q as int;
    assert(z * y >= 0) by (nonlinear_arith)
        requires z >= 0, y >= 0;
    let e = (z * y) % q;
    lemma_mod_bound(z * y, q);
    let hi = (x + q - e) % q;
    let lo = (x + e) % q;
    // (hi + q - lo) % q == (-2e) % q
    lemma_mod_add_multiples_vanish(hi - lo, q);
    assert((hi + q - lo) % q == (hi - lo) % q);
    lemma_sub_mod_noop(x + q - e, x + e, q);
    assert((hi - lo) % q == ((x + q - e) - (x + e)) % q);
    lemma_mod_add_multiples_vanish(-2 * e, q);
    assert((q - 2 * e) % q == (-2 * e) % q);
    let inner = (hi + q - lo) % q;
    assert(inner == (-2 * e) % q);
    // z2 * inner == -2 z2 e == -2 y (z z2) == 2 y, all modulo q
    lemma_mul_mod_noop_right(z2, -2 * e, q);
    assert((z2 * ((-2 * e) % q)) % q == (z2 * (-2 * e)) % q);
    assert(z2 * (-2 * e) == (-2 * z2) * e) by (nonlinear_arith);
    lemma_mul_mod_noop_right(-2 * z2, z * y, q);
    assert(((-2 * z2) * e) % q == ((-2 * z2) * (z * y)) % q);
    assert((-2 * z2) * (z * y) == (-2 * y) * (z * z2)) by (nonlinear_arith);
    lemma_mul_mod_noop_right(-2 * y, z * z2, q);
    assert(((-2 * y) * (z * z2)) % q == ((-2 * y) * (q - 1)) % q);
    assert((-2 * y) * (q - 1) == q * (-2 * y) + 2 * y) by (nonlinear_arith);
    lemma_mod_multiples_vanish(-2 * y, 2 * y, q);
}

/// The zeta-scaled upper output of an inverse butterfly, multiplied by
/// the paired forward zeta, is the lower input minus the upper input,
/// modulo q.
proof fn lemma_gs_scaled_diff(p: int, r: int, z: int, z2: int)
    requires
        0 <= p < Q,
        0 <= r < Q,
        0 <= z,
        0 <= z2,
        (z * z2) % (Q as int) == Q - 1,
    ensures
        (z * ((z2 * ((r + Q - p) % (Q as int))) % (Q as int))) % (Q as int) == (p - r) % (
        Q as int),
{
    let q = Q as int;
    let d = (r + q - p) % q;
    lemma_mod_bound(r + q - p, q);
    assert(z2 * d >= 0) by (nonlinear_arith)
        requires z2 >= 0, d >= 0;
    lemma_mul_mod_noop_right(z, z2 * d, q);
    assert((z * ((z2 * d) % q)) % q == (z * (z2 * d)) % q);
    assert(z * (z2 * d) == (z * z2) * d) by (nonlinear_arith);
    lemma_mul_mod_noop_left(z * z2, d, q);
    assert(((z * z2) * d) % q == ((q - 1) * d) % q);
    assert((q - 1) * d == q * d - d) by (nonlinear_arith);
    lemma_mod_multiples_vanish(d, -d, q);
    assert((q * d - d) % q == (-d) % q);
    lemma_sub_mod_noop_right(0, r + q - p, q);
    assert((0 - ((r + q - p) % q)) % q == (0 - (r + q - p)) % q);
    assert((-d) % q == (p - r - q) % q);
    lemma_mod_add_multiples_vanish(p - r - q, q);
    assert((p - r - q + q) % q == (p - r - q) % q);
}

/// An inverse pass undoes the matching forward pass up to a factor of
/// two on every coefficient.
pub proof fn lemma_inv_pass_of_ntt_pass(c: Seq<u16>, l: int)
    requires
        poly_wf(c),
        is_gap(l),
        2 <= l,
    ensures
        spec_inv_pass(spec_ntt_pass(c, l, 128int / l), l, 256int / l - 1) == spec_scale_mul(c, 2),
{
    let q = Q as int;
    let p = spec_ntt_pass(c, l, 128int / l);
    let w = 2 * l;
    assert forall|t: int| 0 <= t < 256 implies spec_inv_pass(p, l, 256int / l - 1)[t]
        == spec_scale_mul(c, 2)[t] by {
        let m = t / w;
        let off = t % w;
        lemma_pos_layer(t, l);
        lemma_partner_index(l, m);
        lemma_zeta_pair(128int / l + m);
        let zf = ZETAS[128int / l + m] as int;
        let zi = ZETAS[256int / l - 1 - m] as int;
        if off < l {
            // positions t (lower) and t + l (upper) of the same layer
            lemma_pos_layer(t + l, l);
            assert((t + l) / w == m && (t + l) % w == off + l) by {
                vstd::arithmetic::div_mod::lemma_fundamental_div_mod_converse(
                    t + l,
                    w,
                    m,
                    off + l,
                );
            };
            let x = c[t] as int;
            let y = c[t + l] as int;
            assert(zf * y >= 0) by (nonlinear_arith)
                requires zf >= 0, y >= 0;
            let e = (zf * y) % q;
            lemma_mod_bound(zf * y, q);
            assert(p[t] as int == (x + e) % q);
            assert(p[t + l] as int == (x + q - e) % q);
            lemma_butterfly_sum(x, e);
            assert(spec_inv_pass(p, l, 256int / l - 1)[t] as int == (p[t] + p[t + l]) % q);
        } else {
            // position t is the upper half; its partner is t - l
            lemma_pos_layer(t - l, l);
            assert((t - l) / w == m && (t - l) % w == off - l) by {
                vstd::arithmetic::div_mod::lemma_fundamental_div_mod_converse(
                    t - l,
                    w,
                    m,
                    off - l,
                );
            };
            let x = c[t - l] as int;
            let y = c[t] as int;
            assert(zf * y >= 0) by (nonlinear_arith)
                requires zf >= 0, y >= 0;
            let e = (zf * y) % q;
            lemma_mod_bound(zf * y, q);
            assert(p[t - l] as int == (x + e) % q);
            assert(p[t] as int == (x + q - e) % q);
            lemma_butterfly_diff(x, y, zf, zi);
            assert(spec_inv_pass(p, l, 256int / l - 1)[t] as int == (zi * ((p[t] + q - p[t
                - l]) % q)) % q);
        }
    };
    assert(spec_inv_pass(p, l, 256int / l - 1) =~= spec_scale_mul(c, 2));
}

/// A forward pass undoes the matching inverse pass up to a factor of two
/// on every coefficient.
pub proof fn lemma_ntt_pass_of_inv_pass(c: Seq<u16>, l: int)
    requires
        poly_wf(c),
        is_gap(l),
        2 <= l,
    ensures
        spec_ntt_pass(spec_inv_pass(c, l, 256int / l - 1), l, 128int / l) == spec_scale_mul(c, 2),
{
    let q = Q as int;
    let p = spec_inv_pass(c, l, 256int / l - 1);
    let w = 2 * l;
    assert forall|t: int| 0 <= t < 256 implies spec_ntt_pass(p, l, 128int / l)[t]
        == spec_scale_mul(c, 2)[t] by {
        let m = t / w;
        let off = t % w;
        lemma_pos_layer(t, l);
        lemma_partner_index(l, m);
        lemma_zeta_pair(128int / l + m);
        let zf = ZETAS[128int / l + m] as int;
        let zi = ZETAS[256int / l - 1 - m] as int;
        if off < l {
            lemma_pos_layer(t + l, l);
            assert((t + l) / w == m && (t + l) % w == off + l) by {
                vstd::arithmetic::div_mod::lemma_fundamental_div_mod_converse(
                    t + l,
                    w,
                    m,
                    off + l,
                );
            };
            let pv = c[t] as int;
            let rv = c[t + l] as int;
            assert(p[t] as int == (pv + rv) % q);
            assert(p[t + l] as int == (zi * ((rv + q - pv) % q)) % q);
            lemma_gs_scaled_diff(pv, rv, zf, zi);
            // forward lower: (p[t] + (zf * p[t+l]) % q) % q == (2 pv) % q
            assert(p[t + l] as int == (zi * ((rv + q - pv) % q)) % q);
            assert((zf * (p[t + l] as int)) % q == (pv - rv) % q);
            lemma_add_mod_noop_right(p[t] as int, pv - rv, q);
            assert((p[t] as int + (pv - rv) % q) % q == (p[t] as int + (pv - rv)) % q);
            lemma_add_mod_noop_left_helper(pv + rv, pv - rv, q);
            assert(((pv + rv) % q + (pv - rv)) % q == (2 * pv) % q);
            assert(spec_ntt_pass(p, l, 128int / l)[t] as int == (p[t] as int + (zf * (p[t
                + l] as int)) % q) % q);
        } else {
            lemma_pos_layer(t - l, l);
            assert((t - l) / w == m && (t - l) % w == off - l) by {
                vstd::arithmetic::div_mod::lemma_fundamental_div_mod_converse(
                    t - l,
                    w,
                    m,
                    off - l,
                );
            };
            let pv = c[t - l] as int;
            let rv = c[t] as int;
            assert(p[t - l] as int == (pv + rv) % q);
            assert(p[t] as int == (zi * ((rv + q - pv) % q)) % q);
            lemma_gs_scaled_diff(pv, rv, zf, zi);
            assert((zf * (p[t] as int)) % q == (pv - rv) % q);
            // forward upper: (p[t-l] + q - (zf * p[t]) % q) % q == (2 rv) % q
            lemma_sub_mod_noop_right(p[t - l] as int + q, pv - rv, q);
            assert((p[t - l] as int + q - (pv - rv) % q) % q == (p[t - l] as int + q - (pv - rv))
                % q);
            lemma_mod_add_multiples_vanish(p[t - l] as int - (pv - rv), q);
            assert((p[t - l] as int + q - (pv - rv)) % q == (p[t - l] as int - (pv - rv)) % q);
            lemma_sub_mod_noop_left_helper(pv + rv, pv - rv, q);
            assert(((pv + rv) % q - (pv - rv)) % q == (2 * rv) % q);
            assert(spec_ntt_pass(p, l, 128int / l)[t] as int == (p[t - l] as int + q - (zf * (
            p[t] as int)) % q) % q);
        }
    };
    assert(spec_ntt_pass(p, l, 128int / l) =~= spec_scale_mul(c, 2));
}

/// Reducing only the left summand keeps the sum's remainder.
proof fn lemma_add_mod_noop_left_helper(x: int, y: int, m: int)
    requires
        0 < m,
    ensures
        ((x % m) + y) % m == (x + y) % m,
{
    lemma_add_mod_noop(x, y, m);
    lemma_add_mod_noop_right(x % m, y, m);
}

/// Reducing only the left operand keeps the difference's remainder.
proof fn lemma_sub_mod_noop_left_helper(x: int, y: int, m: int)
    requires
        0 < m,
    ensures
        ((x % m) - y) % m == (x - y) % m,
{
    lemma_sub_mod_noop(x, y, m);
    lemma_sub_mod_noop_right(x % m, y, m);
}

/// A butterfly pass always produces reduced coefficients.
proof fn lemma_ntt_pass_wf(c: Seq<u16>, l: int, k0: int)
    ensures
        poly_wf(spec_ntt_pass(c, l, k0)),
{
    let q = Q as int;
    assert forall|t: int| 0 <= t < 256 implies spec_ntt_pass(c, l, k0)[t] < Q by {
        lemma_mod_bound(ZETAS[k0 + t / (2 * l)] * c[t + l], q);
        lemma_mod_bound(ZETAS[k0 + t / (2 * l)] * c[t], q);
        lemma_mod_bound(c[t] + (ZETAS[k0 + t / (2 * l)] * c[t + l]) % q, q);
        lemma_mod_bound(c[t - l] + Q - (ZETAS[k0 + t / (2 * l)] * c[t]) % q, q);
    };
}

/// An inverse butterfly pass always produces reduced coefficients.
proof fn lemma_inv_pass_wf(c: Seq<u16>, l: int, k0: int)
    ensures
        poly_wf(spec_inv_pass(c, l, k0)),
{
    let q = Q as int;
    assert forall|t: int| 0 <= t < 256 implies spec_inv_pass(c, l, k0)[t] < Q by {
        lemma_mod_bound(c[t] + c[t + l], q);
        lemma_mod_bound(c[t] + Q - c[t - l], q);
        lemma_mod_bound(
            ZETAS[k0 - t / (2 * l)] * ((c[t] + Q - c[t - l]) % q),
            q,
        );
    };
}

/// Scaling by a nonnegative factor produces reduced coefficients.
proof fn lemma_scale_wf(c: Seq<u16>, a: int)
    requires
        0 <= a,
    ensures
        poly_wf(spec_scale_mul(c, a)),
{
    let q = Q as int;
    assert forall|t: int| 0 <= t < 256 implies spec_scale_mul(c, a)[t] < Q by {
        assert(a * c[t] >= 0) by (nonlinear_arith)
            requires a >= 0, c[t] >= 0;
        lemma_mod_bound(a * c[t], q);
    };
}

/// Two scalings compose into one by the product of the factors.
proof fn lemma_scale_scale(c: Seq<u16>, a: int, b: int)
    requires
        0 <= a,
        0 <= b,
    ensures
        spec_scale_mul(spec_scale_mul(c, a), b) == spec_scale_mul(c, b * a),
{
    let q = Q as int;
    assert forall|t: int| 0 <= t < 256 implies spec_scale_mul(spec_scale_mul(c, a), b)[t]
        == spec_scale_mul(c, b * a)[t] by {
        lemma_mul_mod_noop_right(b, a * c[t], q);
        assert(b * (a * c[t]) == (b * a) * c[t]) by (nonlinear_arith);
    };
    assert(spec_scale_mul(spec_scale_mul(c, a), b) =~= spec_scale_mul(c, b * a));
}

/// Scaling by one changes nothing on reduced coefficients.
proof fn lemma_scale_one(c: Seq<u16>)
    requires
        poly_wf(c),
    ensures
        spec_scale_mul(c, 1) == c,
{
    assert forall|t: int| 0 <= t < 256 implies spec_scale_mul(c, 1)[t] == c[t] by {
        lemma_small_mod(c[t] as nat, Q as nat);
    };
    assert(spec_scale_mul(c, 1) =~= c);
}

/// A forward pass commutes with scaling.
proof fn lemma_ntt_pass_scale(c: Seq<u16>, l: int, k0: int, a: int)
    requires
        is_gap(l),
        2 <= l,
        0 <= a,
    ensures
        spec_ntt_pass(spec_scale_mul(c, a), l, k0) == spec_scale_mul(spec_ntt_pass(c, l, k0), a),
{
    let q = Q as int;
    let sc = spec_scale_mul(c, a);
    assert forall|t: int| 0 <= t < 256 implies spec_ntt_pass(sc, l, k0)[t] == spec_scale_mul(
        spec_ntt_pass(c, l, k0),
        a,
    )[t] by {
        lemma_pos_layer(t, l);
        let m = t / (2 * l);
        let z = ZETAS[k0 + m] as int;
        if t % (2 * l) < l {
            let x = c[t] as int;
            let y = c[t + l] as int;
            assert(z * y >= 0 && a * y >= 0 && a * x >= 0) by (nonlinear_arith)
                requires z >= 0, y >= 0, a >= 0, x >= 0;
            // left side: (a x mod q) + (z * (a y mod q)) mod q, reduced
            lemma_mul_mod_noop_right(z, a * y, q);
            assert((z * ((a * y) % q)) % q == (z * (a * y)) % q);
            assert(z * (a * y) == a * (z * y)) by (nonlinear_arith);
            lemma_add_mod_noop((a * x), a * (z * y), q);
            assert(((a * x) % q + (a * (z * y)) % q) % q == (a * x + a * (z * y)) % q);
            // right side: a * ((x + (z y mod q)) mod q), reduced
            lemma_mul_mod_noop_right(a, x + (z * y) % q, q);
            assert((a * ((x + (z * y) % q) % q)) % q == (a * (x + (z * y) % q)) % q);
            assert(a * (x + (z * y) % q) == a * x + a * ((z * y) % q)) by (nonlinear_arith);
            lemma_add_mod_noop(a * x, a * ((z * y) % q), q);
            lemma_mul_mod_noop_right(a, z * y, q);
            assert((a * ((z * y) % q)) % q == (a * (z * y)) % q);
            lemma_add_mod_noop(a * x, a * (z * y), q);
        } else {
            let x = c[t - l] as int;
            let y = c[t] as int;
            assert(z * y >= 0 && a * y >= 0 && a * x >= 0) by (nonlinear_arith)
                requires z >= 0, y >= 0, a >= 0, x >= 0;
            // left side: (a x mod q) + q - (z (a y mod q)) mod q, reduced
            lemma_mul_mod_noop_right(z, a * y, q);
            assert(z * (a * y) == a * (z * y)) by (nonlinear_arith);
            lemma_mod_bound(a * (z * y), q);
            lemma_mod_add_multiples_vanish((a * x) % q - (a * (z * y)) % q, q);
            lemma_sub_mod_noop(a * x, a * (z * y), q);
            assert(((a * x) % q + q - (a * (z * y)) % q) % q == (a * x - a * (z * y)) % q);
            // right side: a * ((x + q - (z y mod q)) mod q), reduced
            lemma_mul_mod_noop_right(a, x + q - (z * y) % q, q);
            assert((a * ((x + q - (z * y) % q) % q)) % q == (a * (x + q - (z * y) % q)) % q);
            assert(a * (x + q - (z * y) % q) == q * a + (a * x - a * ((z * y) % q)))
                by (nonlinear_arith);
            lemma_mod_multiples_vanish(a, a * x - a * ((z * y) % q), q);
            assert((q * a + (a * x - a * ((z * y) % q))) % q == (a * x - a * ((z * y) % q)) % q);
            lemma_sub_mod_noop_right(a * x, a * ((z * y) % q), q);
            // hmm: need (a x - a ((z y) mod q)) mod q == (a x - a z y) mod q
            lemma_mul_mod_noop_right(a, z * y, q);
            assert((a * ((z * y) % q)) % q == (a * (z * y)) % q);
            lemma_sub_mod_noop_right(a * x, a * ((z * y) % q), q);
            lemma_sub_mod_noop_right(a * x, a * (z * y), q);
            assert((a * x - (a * ((z * y) % q)) % q) % q == (a * x - (a * (z * y)) % q) % q);
            assert((a * x - a * ((z * y) % q)) % q == (a * x - a * (z * y)) % q);
        }
    };
    assert(spec_ntt_pass(sc, l, k0) =~= spec_scale_mul(spec_ntt_pass(c, l, k0), a));
}

/// An inverse pass commutes with scaling.
proof fn lemma_inv_pass_scale(c: Seq<u16>, l: int, k0: int, a: int)
    requires
        is_gap(l),
        2 <= l,
        0 <= a,
    ensures
        spec_inv_pass(spec_scale_mul(c, a), l, k0) == spec_scale_mul(spec_inv_pass(c, l, k0), a),
{
    let q = Q as int;
    let sc = spec_scale_mul(c, a);
    assert forall|t: int| 0 <= t < 256 implies spec_inv_pass(sc, l, k0)[t] == spec_scale_mul(
        spec_inv_pass(c, l, k0),
        a,
    )[t] by {
        lemma_pos_layer(t, l);
        let m = t / (2 * l);
        let z = ZETAS[k0 - m] as int;
        if t % (2 * l) < l {
            let x = c[t] as int;
            let y = c[t + l] as int;
            assert(a * x >= 0 && a * y >= 0) by (nonlinear_arith)
                requires a >= 0, x >= 0, y >= 0;
            lemma_add_mod_noop(a * x, a * y, q);
            assert(a * (x + y) == a * x + a * y) by (nonlinear_arith);
            lemma_mul_mod_noop_right(a, x + y, q);
        } else {
            let x = c[t - l] as int;
            let y = c[t] as int;
            assert(a * x >= 0 && a * y >= 0) by (nonlinear_arith)
                requires a >= 0, x >= 0, y >= 0;
            // inner difference on the scaled side
            lemma_mod_bound(a * x, q);
            lemma_mod_add_multiples_vanish((a * y) % q - (a * x) % q, q);
            lemma_sub_mod_noop(a * y, a * x, q);
            assert(((a * y) % q + q - (a * x) % q) % q == (a * y - a * x) % q);
            assert(a * y - a * x == a * (y + q - x) - q * a) by (nonlinear_arith);
            lemma_mod_multiples_vanish(-a, a * (y + q - x), q);
            assert((q * (-a) + a * (y + q - x)) % q == (a * (y + q - x)) % q);
            assert((a * y - a * x) % q == (a * (y + q - x)) % q);
            lemma_mul_mod_noop_right(a, y + q - x, q);
            assert((a * ((y + q - x) % q)) % q == (a * (y + q - x)) % q);
            // so the scaled inner equals a times the plain inner, mod q
            let d = (y + q - x) % q;
            lemma_mod_bound(y + q - x, q);
            assert(((a * y) % q + q - (a * x) % q) % q == (a * d) % q);
            // now the zeta multiplication
            lemma_mul_mod_noop_right(z, a * d, q);
            assert(z * (a * d) == a * (z * d)) by (nonlinear_arith);
            lemma_mul_mod_noop_right(a, z * d, q);
            assert((z * ((a * d) % q)) % q == (a * (z * d)) % q);
            assert((a * ((z * d) % q)) % q == (a * (z * d)) % q);
        }
    };
    assert(spec_inv_pass(sc, l, k0) =~= spec_scale_mul(spec_inv_pass(c, l, k0), a));
}

/// Concrete division facts the gap inductions step through.
proof fn lemma_gap_div(l: int)
    requires
        is_gap(l),
        2 <= l,
    ensures
        256int / l == 2 * (128int / l),
        256int / (2 * l) == 128int / l,
        (l / 2) * 2 == l,
        2 <= 128int / l || l == 128,
{
    if l == 2 {
        assert(256int / 2 == 128 && 128int / 2 == 64 && 256int / 4 == 64);
    }
    if l == 4 {
        assert(256int / 4 == 64 && 128int / 4 == 32 && 256int / 8 == 32);
    }
    if l == 8 {
        assert(256int / 8 == 32 && 128int / 8 == 16 && 256int / 16 == 16);
    }
    if l == 16 {
        assert(256int / 16 == 16 && 128int / 16 == 8 && 256int / 32 == 8);
    }
    if l == 32 {
        assert(256int / 32 == 8 && 128int / 32 == 4 && 256int / 64 == 4);
    }
    if l == 64 {
        assert(256int / 64 == 4 && 128int / 64 == 2 && 256int / 128 == 2);
    }
    if l == 128 {
        assert(256int / 128 == 2 && 128int / 128 == 1 && 256int / 256 == 1);
    }
}

/// The inverse passes keep every coefficient reduced.
proof fn lemma_inv_from_wf(y: Seq<u16>, l: int)
    requires
        poly_wf(y),
    ensures
        poly_wf(spec_inv_from(y, l)),
    decreases 256 - l,
{
    if l < 2 || l > 128 {
    } else {
        lemma_inv_pass_wf(y, l, 256int / l - 1);
        lemma_inv_from_wf(spec_inv_pass(y, l, 256int / l - 1), 2 * l);
    }
}

/// The forward passes commute with scaling.
proof fn lemma_ntt_from_scale(c: Seq<u16>, l: int, a: int)
    requires
        0 <= a,
        is_gap(l),
    ensures
        spec_ntt_from(spec_scale_mul(c, a), l) == spec_scale_mul(spec_ntt_from(c, l), a),
    decreases l,
{
    if l < 2 {
    } else {
        lemma_ntt_pass_scale(c, l, 128int / l, a);
        assert(is_gap(l / 2));
        lemma_ntt_from_scale(spec_ntt_pass(c, l, 128int / l), l / 2, a);
    }
}

/// The inverse passes from gap 2 upward undo the forward passes from gap
/// l downward, leaving one factor of two per pass.
proof fn lemma_inv_from_of_ntt_from(y: Seq<u16>, l: int)
    requires
        poly_wf(y),
        is_gap(l),
        2 <= l,
    ensures
        spec_inv_from(spec_ntt_from(y, l), 2) == spec_inv_from(spec_scale_mul(y, l), 2 * l),
    decreases l,
{
    if l == 2 {
        lemma_inv_pass_of_ntt_pass(y, 2);
        assert(spec_ntt_from(spec_ntt_pass(y, 2, 64), 1) == spec_ntt_pass(y, 2, 64));
        assert(spec_inv_from(spec_ntt_from(y, 2), 2) == spec_inv_from(
            spec_inv_pass(spec_ntt_pass(y, 2, 64), 2, 127),
            4,
        ));
    } else {
        let h = l / 2;
        let p = spec_ntt_pass(y, l, 128int / l);
        lemma_ntt_pass_wf(y, l, 128int / l);
        lemma_gap_div(l);
        assert(is_gap(h) && 2 <= h);
        lemma_inv_from_of_ntt_from(p, h);
        assert(spec_inv_from(spec_ntt_from(y, l), 2) == spec_inv_from(spec_scale_mul(p, h), l));
        lemma_inv_pass_scale(p, l, 256int / l - 1, h);
        lemma_inv_pass_of_ntt_pass(y, l);
        lemma_scale_scale(y, 2, h);
        assert(h * 2 == l);
        assert(spec_inv_from(spec_scale_mul(p, h), l) == spec_inv_from(
            spec_scale_mul(spec_inv_pass(p, l, 256int / l - 1), h),
            2 * l,
        ));
    }
}

/// The forward passes from gap 128 downward undo the inverse passes from
/// gap l upward, leaving one factor of two per pass.
proof fn lemma_ntt_from_of_inv_from(y: Seq<u16>, l: int)
    requires
        poly_wf(y),
        is_gap(l),
        2 <= l,
    ensures
        spec_ntt_from(spec_inv_from(y, l), 128) == spec_ntt_from(
            spec_scale_mul(y, 256int / l),
            l / 2,
        ),
    decreases 256 - l,
{
    lemma_gap_div(l);
    if l == 128 {
        lemma_ntt_pass_of_inv_pass(y, 128);
        assert(spec_inv_from(spec_inv_pass(y, 128, 1), 256) == spec_inv_pass(y, 128, 1));
        assert(spec_ntt_from(spec_inv_pass(y, 128, 1), 128) == spec_ntt_from(
            spec_ntt_pass(spec_inv_pass(y, 128, 1), 128, 1),
            64,
        ));
    } else {
        let p = spec_inv_pass(y, l, 256int / l - 1);
        lemma_inv_pass_wf(y, l, 256int / l - 1);
        assert(is_gap(2 * l) && 2 <= 2 * l);
        lemma_ntt_from_of_inv_from(p, 2 * l);
        lemma_gap_div(2 * l);
        assert(spec_ntt_from(spec_inv_from(y, l), 128) == spec_ntt_from(
            spec_scale_mul(p, 128int / l),
            l,
        ));
        lemma_ntt_pass_scale(p, l, 128int / l, 128int / l);
        lemma_ntt_pass_of_inv_pass(y, l);
        lemma_scale_scale(y, 2, 128int / l);
        assert((128int / l) * 2 == 256int / l);
        assert(spec_ntt_from(spec_scale_mul(p, 128int / l), l) == spec_ntt_from(
            spec_scale_mul(spec_ntt_pass(p, l, 128int / l), 128int / l),
            l / 2,
        ));
    }
}

/// The inverse NTT undoes the forward NTT on every well-formed element:
/// the seven inverse passes cancel the seven forward passes up to the
/// factor 128, which the final scaling by 128^-1 mod q removes.
pub proof fn lemma_inv_ntt_of_ntt(x: Seq<u16>)
    requires
        poly_wf(x),
    ensures
        spec_inv_ntt(spec_ntt(x)) == x,
{
    let q = Q as int;
    lemma_inv_from_of_ntt_from(x, 128);
    assert(spec_inv_from(spec_scale_mul(x, 128), 256) == spec_scale_mul(x, 128));
    assert(spec_inv_ntt(spec_ntt(x)) == spec_scale_poly(spec_scale_mul(x, 128)));
    assert forall|t: int| 0 <= t < 256 implies spec_scale_poly(spec_scale_mul(x, 128))[t]
        == x[t] by {
        lemma_mul_mod_noop_left(128 * x[t], NTT_F as int, q);
        assert((((128 * x[t]) % q) * (NTT_F as int)) % q == ((128 * x[t]) * (NTT_F as int)) % q);
        assert((128 * x[t]) * (NTT_F as int) == (128 * (NTT_F as int)) * x[t])
            by (nonlinear_arith);
        lemma_mul_mod_noop_left(128 * (NTT_F as int), x[t] as int, q);
        assert((128 * (NTT_F as int)) % q == 1);
        lemma_small_mod(x[t] as nat, Q as nat);
    };
    assert(spec_scale_poly(spec_scale_mul(x, 128)) =~= x);
}

/// The forward NTT undoes the inverse NTT on every well-formed element.
pub proof fn lemma_ntt_of_inv_ntt(y: Seq<u16>)
    requires
        poly_wf(y),
    ensures
        spec_ntt(spec_inv_ntt(y)) == y,
{
    let q = Q as int;
    let w = spec_inv_from(y, 2);
    lemma_inv_from_wf(y, 2);
    assert forall|t: int| 0 <= t < 256 implies spec_scale_poly(w)[t] == spec_scale_mul(
        w,
        NTT_F as int,
    )[t] by {
        assert(w[t] * (NTT_F as int) == (NTT_F as int) * w[t]) by (nonlinear_arith);
    };
    assert(spec_scale_poly(w) =~= spec_scale_mul(w, NTT_F as int));
    lemma_ntt_from_scale(w, 128, NTT_F as int);
    assert(spec_ntt(spec_inv_ntt(y)) == spec_scale_mul(spec_ntt_from(w, 128), NTT_F as int));
    lemma_ntt_from_of_inv_from(y, 2);
    assert(spec_ntt_from(w, 128) == spec_ntt_from(spec_scale_mul(y, 128), 1));
    assert(spec_ntt_from(spec_scale_mul(y, 128), 1) == spec_scale_mul(y, 128));
    lemma_scale_scale(y, 128, NTT_F as int);
    assert(spec_ntt(spec_inv_ntt(y)) == spec_scale_mul(y, (NTT_F as int) * 128));
    assert forall|t: int| 0 <= t < 256 implies spec_scale_mul(y, (NTT_F as int) * 128)[t]
        == y[t] by {
        lemma_mul_mod_noop_left((NTT_F as int) * 128, y[t] as int, q);
        assert(((NTT_F as int) * 128) % q == 1);
        lemma_small_mod(y[t] as nat, Q as nat);
    };
    assert(spec_scale_mul(y, (NTT_F as int) * 128) =~= y);
}

} // verus!
