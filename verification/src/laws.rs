//! The algebra the module operations obey: multiplying by a zero module
//! yields zero, multiplying by the identity module changes nothing, and
//! matrix multiplication distributes over addition.

use vstd::prelude::*;

use vstd::arithmetic::div_mod::lemma_add_mod_noop;
use vstd::arithmetic::div_mod::lemma_mod_self_0;
use vstd::arithmetic::div_mod::lemma_mul_mod_noop_right;
use vstd::arithmetic::div_mod::lemma_small_mod;

use crate::module::spec_dot;
use crate::module::spec_mul_poly;
use crate::module::Module;
use crate::products::spec_base_mul_0;
use crate::products::spec_base_mul_1;
use crate::products::spec_ntt_mul;
use crate::products::spec_school_mul;
use crate::products::spec_school_sum;
use crate::products::spec_school_term;
use crate::ring::poly_wf;
use crate::ring::spec_add_poly;
use crate::ring::spec_zero_poly;
use crate::ring::Q;

verus! {

/// The constant polynomial 1.
pub open spec fn spec_one_poly() -> Seq<u16> {
    spec_zero_poly().update(0, 1u16)
}

/// Adding the zero polynomial changes nothing.
pub proof fn lemma_add_zero_right(a: Seq<u16>)
    requires
        poly_wf(a),
    ensures
        spec_add_poly(a, spec_zero_poly()) == a,
{
    assert forall|i: int| 0 <= i < 256 implies spec_add_poly(a, spec_zero_poly())[i] == a[i] by {
        lemma_small_mod(a[i] as nat, Q as nat);
    };
    assert(spec_add_poly(a, spec_zero_poly()) =~= a);
}

/// Adding to the zero polynomial changes nothing.
pub proof fn lemma_add_zero_left(a: Seq<u16>)
    requires
        poly_wf(a),
    ensures
        spec_add_poly(spec_zero_poly(), a) == a,
{
    assert forall|i: int| 0 <= i < 256 implies spec_add_poly(spec_zero_poly(), a)[i] == a[i] by {
        lemma_small_mod(a[i] as nat, Q as nat);
    };
    assert(spec_add_poly(spec_zero_poly(), a) =~= a);
}

/// Every schoolbook partial sum against the zero polynomial is zero.
pub proof fn lemma_school_sum_zero(a: Seq<u16>, k: int, n: nat)
    requires
        a.len() == 256,
        n <= 256,
        0 <= k < 256,
    ensures
        spec_school_sum(a, spec_zero_poly(), k, n) == 0,
    decreases n,
{
    if n != 0 {
        lemma_school_sum_zero(a, k, (n - 1) as nat);
        let i = n - 1;
        assert(spec_school_term(a, spec_zero_poly(), k, i) == 0) by {
            if i <= k {
                assert(spec_zero_poly()[k - i] == 0u16);
                assert(a[i] * (0u16 as int) == 0) by (nonlinear_arith);
                lemma_small_mod(0, Q as nat);
            } else {
                assert(spec_zero_poly()[k - i + 256] == 0u16);
                assert(a[i] * (0u16 as int) == 0) by (nonlinear_arith);
                lemma_small_mod(0, Q as nat);
                lemma_mod_self_0(Q as int);
            }
        };
        lemma_small_mod(0, Q as nat);
    }
}

/// Multiplying by the zero polynomial, in either domain, yields the zero
/// polynomial.
pub proof fn lemma_mul_poly_zero(a: Seq<u16>, ntt: bool)
    requires
        poly_wf(a),
    ensures
        spec_mul_poly(a, spec_zero_poly(), ntt) == spec_zero_poly(),
{
    if ntt {
        assert forall|t: int| 0 <= t < 256 implies spec_ntt_mul(a, spec_zero_poly())[t]
            == 0u16 by {
            lemma_small_mod(0, Q as nat);
            let i = t / 4;
            assert(0 <= i < 64);
            assert(spec_zero_poly()[4 * i] == 0u16 && spec_zero_poly()[4 * i + 1] == 0u16
                && spec_zero_poly()[4 * i + 2] == 0u16 && spec_zero_poly()[4 * i + 3] == 0u16);
            assert(a[4 * i] * (0u16 as int) == 0) by (nonlinear_arith);
            assert(a[4 * i + 1] * (0u16 as int) == 0) by (nonlinear_arith);
            assert(a[4 * i + 2] * (0u16 as int) == 0) by (nonlinear_arith);
            assert(a[4 * i + 3] * (0u16 as int) == 0) by (nonlinear_arith);
            assert(forall|g: int| #[trigger] (g * 0) == 0) by (nonlinear_arith);
        };
        assert(spec_ntt_mul(a, spec_zero_poly()) =~= spec_zero_poly());
    } else {
        assert forall|k: int| 0 <= k < 256 implies spec_school_mul(a, spec_zero_poly())[k]
            == 0u16 by {
            lemma_school_sum_zero(a, k, 256);
        };
        assert(spec_school_mul(a, spec_zero_poly()) =~= spec_zero_poly());
    }
}

/// The schoolbook partial sums against the constant polynomial 1: the
/// only nonzero term is the diagonal one, so the sum is a[k] once it has
/// been passed.
pub proof fn lemma_school_sum_one(a: Seq<u16>, k: int, n: nat)
    requires
        poly_wf(a),
        n <= 256,
        0 <= k < 256,
    ensures
        spec_school_sum(a, spec_one_poly(), k, n) == if n > k {
            a[k] as int
        } else {
            0
        },
    decreases n,
{
    if n != 0 {
        lemma_school_sum_one(a, k, (n - 1) as nat);
        let i = n - 1;
        if i == k {
            assert(spec_one_poly()[0] == 1);
            assert(spec_school_term(a, spec_one_poly(), k, i) == a[k] as int) by {
                assert(a[k] * spec_one_poly()[0] == a[k]);
                lemma_small_mod(a[k] as nat, Q as nat);
            };
            lemma_small_mod(a[k] as nat, Q as nat);
        } else {
            assert(spec_school_term(a, spec_one_poly(), k, i) == 0) by {
                if i < k {
                    assert(spec_one_poly()[k - i] == 0);
                    assert(a[i] * spec_one_poly()[k - i] == 0);
                    lemma_small_mod(0, Q as nat);
                } else {
                    assert(1 <= k - i + 256 < 256);
                    assert(spec_one_poly()[k - i + 256] == 0);
                    assert(a[i] * spec_one_poly()[k - i + 256] == 0);
                    lemma_small_mod(0, Q as nat);
                    lemma_mod_self_0(Q as int);
                }
            };
            if n > k {
                lemma_small_mod(a[k] as nat, Q as nat);
            } else {
                lemma_small_mod(0, Q as nat);
            }
        }
    }
}

/// Multiplying a normal-domain polynomial by the constant polynomial 1
/// changes nothing.
pub proof fn lemma_school_mul_one(a: Seq<u16>)
    requires
        poly_wf(a),
    ensures
        spec_school_mul(a, spec_one_poly()) == a,
{
    assert forall|k: int| 0 <= k < 256 implies spec_school_mul(a, spec_one_poly())[k] == a[k] by {
        lemma_school_sum_one(a, k, 256);
    };
    assert(spec_school_mul(a, spec_one_poly()) =~= a);
}

/// M times a zero module is zero: the dot product of any row against a
/// column of zero polynomials is the zero polynomial, in either domain.
pub proof fn lemma_dot_zero(row: Seq<Seq<u16>>, col: Seq<Seq<u16>>, n: nat, ntt: bool)
    requires
        row.len() >= n,
        col.len() >= n,
        forall|t: int| 0 <= t < n ==> poly_wf(#[trigger] row[t]),
        forall|t: int| 0 <= t < n ==> #[trigger] col[t] == spec_zero_poly(),
    ensures
        spec_dot(row, col, n, ntt) == spec_zero_poly(),
    decreases n,
{
    if n != 0 {
        lemma_dot_zero(row, col, (n - 1) as nat, ntt);
        lemma_mul_poly_zero(row[n - 1], ntt);
        assert(poly_wf(spec_zero_poly())) by {
            assert(forall|i: int| 0 <= i < 256 ==> spec_zero_poly()[i] == 0u16);
        };
        lemma_add_zero_right(spec_zero_poly());
    }
}

/// M times the identity module is M: the dot product of a wf row against
/// column j of the identity matrix gives back the row's j-th element, in
/// the normal domain.
pub proof fn lemma_dot_identity(row: Seq<Seq<u16>>, col: Seq<Seq<u16>>, n: nat, j: int)
    requires
        row.len() >= n,
        col.len() >= n,
        0 <= j,
        forall|t: int| 0 <= t < n ==> poly_wf(#[trigger] row[t]),
        forall|t: int| 0 <= t < n ==> #[trigger] col[t] == if t == j {
            spec_one_poly()
        } else {
            spec_zero_poly()
        },
    ensures
        spec_dot(row, col, n, false) == if j < n {
            row[j]
        } else {
            spec_zero_poly()
        },
    decreases n,
{
    if n != 0 {
        lemma_dot_identity(row, col, (n - 1) as nat, j);
        let t = n - 1;
        if t == j {
            lemma_school_mul_one(row[t]);
            lemma_add_zero_left(row[t]);
        } else {
            lemma_mul_poly_zero(row[t], false);
            if j < n - 1 {
                lemma_add_zero_right(row[j]);
            } else {
                assert(poly_wf(spec_zero_poly())) by {
                    assert(forall|i: int| 0 <= i < 256 ==> spec_zero_poly()[i] == 0u16);
                };
                lemma_add_zero_right(spec_zero_poly());
            }
        }
    }
}

/// The modular sum identity behind distributivity of the wrapped
/// (negated) schoolbook terms.
proof fn lemma_neg_mod_add(u: int, v: int)
    requires
        0 <= u < Q,
        0 <= v < Q,
    ensures
        ((Q - u) % (Q as int) + (Q - v) % (Q as int)) % (Q as int) == (Q - (u + v) % (Q as int))
            % (Q as int),
{
    lemma_mod_self_0(Q as int);
    if u == 0 {
        lemma_small_mod(0, Q as nat);
        lemma_small_mod(v as nat, Q as nat);
        if v == 0 {
        } else {
            lemma_small_mod((Q - v) as nat, Q as nat);
        }
    } else if v == 0 {
        lemma_small_mod(0, Q as nat);
        lemma_small_mod(u as nat, Q as nat);
        lemma_small_mod((Q - u) as nat, Q as nat);
    } else {
        lemma_small_mod((Q - u) as nat, Q as nat);
        lemma_small_mod((Q - v) as nat, Q as nat);
        if u + v < Q {
            lemma_small_mod((u + v) as nat, Q as nat);
            assert((2 * (Q as int) - u - v) % (Q as int) == Q - u - v) by {
                vstd::arithmetic::div_mod::lemma_mod_sub_multiples_vanish(
                    2 * (Q as int) - u - v,
                    Q as int,
                );
                lemma_small_mod((Q - u - v) as nat, Q as nat);
            };
        } else {
            assert((u + v) % (Q as int) == u + v - Q) by {
                vstd::arithmetic::div_mod::lemma_mod_sub_multiples_vanish(u + v, Q as int);
                lemma_small_mod((u + v - Q) as nat, Q as nat);
            };
            if u + v == 2 * (Q as int) {
                lemma_mod_self_0(Q as int);
            } else if 2 * (Q as int) - u - v == Q {
                lemma_mod_self_0(Q as int);
                lemma_small_mod(0, Q as nat);
            } else {
                assert((2 * (Q as int) - u - v) % (Q as int) == 2 * (Q as int) - u - v) by {
                    lemma_small_mod((2 * (Q as int) - u - v) as nat, Q as nat);
                };
            }
        }
    }
}

/// One schoolbook term against a sum splits into the sum of the two
/// terms, modulo q.
proof fn lemma_school_term_distributes(a: Seq<u16>, b: Seq<u16>, c: Seq<u16>, k: int, i: int)
    requires
        poly_wf(a),
        poly_wf(b),
        poly_wf(c),
        0 <= k < 256,
        0 <= i < 256,
    ensures
        spec_school_term(a, spec_add_poly(b, c), k, i) == (spec_school_term(a, b, k, i)
            + spec_school_term(a, c, k, i)) % (Q as int),
{
    let q = Q as int;
    let j = if i <= k {
        k - i
    } else {
        k - i + 256
    };
    let ai = a[i] as int;
    let bj = b[j] as int;
    let cj = c[j] as int;
    assert(spec_add_poly(b, c)[j] == ((bj + cj) % q) as u16);
    lemma_mul_mod_noop_right(ai, bj + cj, q);
    assert(ai * ((bj + cj) % q) % q == (ai * (bj + cj)) % q);
    assert(ai * (bj + cj) == ai * bj + ai * cj) by (nonlinear_arith);
    lemma_add_mod_noop(ai * bj, ai * cj, q);
    assert((ai * (bj + cj)) % q == ((ai * bj) % q + (ai * cj) % q) % q);
    if i <= k {
        assert(spec_school_term(a, spec_add_poly(b, c), k, i) == (ai * ((bj + cj) % q)) % q);
    } else {
        let u = (ai * bj) % q;
        let v = (ai * cj) % q;
        vstd::arithmetic::div_mod::lemma_mod_bound(ai * bj, q);
        vstd::arithmetic::div_mod::lemma_mod_bound(ai * cj, q);
        lemma_neg_mod_add(u, v);
        lemma_add_mod_noop(ai * bj, ai * cj, q);
        assert((u + v) % q == (ai * (bj + cj)) % q);
    }
}

/// The schoolbook partial sums distribute over polynomial addition,
/// modulo q.
proof fn lemma_school_sum_distributes(a: Seq<u16>, b: Seq<u16>, c: Seq<u16>, k: int, n: nat)
    requires
        poly_wf(a),
        poly_wf(b),
        poly_wf(c),
        0 <= k < 256,
        n <= 256,
    ensures
        spec_school_sum(a, spec_add_poly(b, c), k, n) == (spec_school_sum(a, b, k, n)
            + spec_school_sum(a, c, k, n)) % (Q as int),
    decreases n,
{
    let q = Q as int;
    if n == 0 {
        lemma_small_mod(0, Q as nat);
    } else {
        lemma_school_sum_distributes(a, b, c, k, (n - 1) as nat);
        lemma_school_term_distributes(a, b, c, k, n - 1);
        let sb = spec_school_sum(a, b, k, (n - 1) as nat);
        let sc = spec_school_sum(a, c, k, (n - 1) as nat);
        let tb = spec_school_term(a, b, k, n - 1);
        let tc = spec_school_term(a, c, k, n - 1);
        vstd::arithmetic::div_mod::lemma_mod_bound(sb + sc, q);
        vstd::arithmetic::div_mod::lemma_mod_bound(tb + tc, q);
        lemma_add_mod_noop(sb + sc, tb + tc, q);
        assert(((sb + sc) % q + (tb + tc) % q) % q == (sb + sc + tb + tc) % q);
        lemma_add_mod_noop(sb + tb, sc + tc, q);
        assert(((sb + tb) % q + (sc + tc) % q) % q == (sb + tb + sc + tc) % q);
    }
}

/// Two degree-one products against a sum split into sums of products,
/// modulo q: the constant coefficient.
proof fn lemma_base_mul_0_distributes(
    a0: u16,
    a1: u16,
    b0: u16,
    b1: u16,
    c0: u16,
    c1: u16,
    g: int,
)
    requires
        a0 < Q,
        a1 < Q,
        b0 < Q,
        b1 < Q,
        c0 < Q,
        c1 < Q,
        0 <= g < Q,
    ensures
        spec_base_mul_0(
            a0,
            a1,
            ((b0 + c0) % (Q as int)) as u16,
            ((b1 + c1) % (Q as int)) as u16,
            g,
        ) == ((spec_base_mul_0(a0, a1, b0, b1, g) + spec_base_mul_0(a0, a1, c0, c1, g)) % (
        Q as int)) as u16,
{
    let q = Q as int;
    let s0 = (b0 + c0) % q;
    let s1 = (b1 + c1) % q;
    lemma_mul_mod_noop_right(a0 as int, b0 + c0, q);
    assert((a0 as int) * s0 % q == (a0 as int) * (b0 + c0) % q);
    assert((a0 as int) * (b0 + c0) == a0 * b0 + a0 * c0) by (nonlinear_arith);
    // The g * (a1 * s1) part: reassociate, drop the inner mod, distribute.
    assert(g * ((a1 as int) * s1) == (g * (a1 as int)) * s1) by (nonlinear_arith);
    lemma_mul_mod_noop_right(g * (a1 as int), b1 + c1, q);
    assert((g * (a1 as int)) * s1 % q == (g * (a1 as int)) * (b1 + c1) % q);
    assert((g * (a1 as int)) * (b1 + c1) == g * ((a1 as int) * (b1 as int)) + g * ((a1 as int) * (
    c1 as int))) by (nonlinear_arith);
    let x = (a0 as int) * (b0 as int) + g * ((a1 as int) * (b1 as int));
    let y = (a0 as int) * (c0 as int) + g * ((a1 as int) * (c1 as int));
    assert((a0 as int) * s0 + g * ((a1 as int) * s1) >= 0) by (nonlinear_arith)
        requires 0 <= a0, 0 <= s0, 0 <= g, 0 <= a1, 0 <= s1;
    assert(x >= 0 && y >= 0) by (nonlinear_arith)
        requires 0 <= a0, 0 <= b0, 0 <= g, 0 <= a1, 0 <= b1, 0 <= c0, 0 <= c1,
            x == (a0 as int) * (b0 as int) + g * ((a1 as int) * (b1 as int)),
            y == (a0 as int) * (c0 as int) + g * ((a1 as int) * (c1 as int));
    lemma_add_mod_noop((a0 as int) * s0, g * ((a1 as int) * s1), q);
    lemma_add_mod_noop((a0 as int) * (b0 + c0), (g * (a1 as int)) * (b1 + c1), q);
    lemma_add_mod_noop(x, y, q);
}

/// Two degree-one products against a sum split into sums of products,
/// modulo q: the linear coefficient.
proof fn lemma_base_mul_1_distributes(a0: u16, a1: u16, b0: u16, b1: u16, c0: u16, c1: u16)
    requires
        a0 < Q,
        a1 < Q,
        b0 < Q,
        b1 < Q,
        c0 < Q,
        c1 < Q,
    ensures
        spec_base_mul_1(a0, a1, ((b0 + c0) % (Q as int)) as u16, ((b1 + c1) % (Q as int)) as u16)
            == ((spec_base_mul_1(a0, a1, b0, b1) + spec_base_mul_1(a0, a1, c0, c1)) % (
        Q as int)) as u16,
{
    let q = Q as int;
    let s0 = (b0 + c0) % q;
    let s1 = (b1 + c1) % q;
    lemma_mul_mod_noop_right(a1 as int, b0 + c0, q);
    assert((a1 as int) * (b0 + c0) == a1 * b0 + a1 * c0) by (nonlinear_arith);
    lemma_mul_mod_noop_right(a0 as int, b1 + c1, q);
    assert((a0 as int) * (b1 + c1) == a0 * b1 + a0 * c1) by (nonlinear_arith);
    let x = (a1 as int) * (b0 as int) + (a0 as int) * (b1 as int);
    let y = (a1 as int) * (c0 as int) + (a0 as int) * (c1 as int);
    assert((a1 as int) * s0 + (a0 as int) * s1 >= 0) by (nonlinear_arith)
        requires 0 <= a1, 0 <= s0, 0 <= a0, 0 <= s1;
    assert(x >= 0 && y >= 0) by (nonlinear_arith)
        requires 0 <= a0, 0 <= b0, 0 <= a1, 0 <= b1, 0 <= c0, 0 <= c1,
            x == (a1 as int) * (b0 as int) + (a0 as int) * (b1 as int),
            y == (a1 as int) * (c0 as int) + (a0 as int) * (c1 as int);
    lemma_add_mod_noop((a1 as int) * s0, (a0 as int) * s1, q);
    lemma_add_mod_noop((a1 as int) * (b0 + c0), (a0 as int) * (b1 + c1), q);
    lemma_add_mod_noop(x, y, q);
}

/// A ring product against a sum splits into the sum of the products, in
/// either domain.
pub proof fn lemma_mul_poly_distributes(a: Seq<u16>, b: Seq<u16>, c: Seq<u16>, ntt: bool)
    requires
        poly_wf(a),
        poly_wf(b),
        poly_wf(c),
    ensures
        spec_mul_poly(a, spec_add_poly(b, c), ntt) == spec_add_poly(
            spec_mul_poly(a, b, ntt),
            spec_mul_poly(a, c, ntt),
        ),
{
    let q = Q as int;
    let bc = spec_add_poly(b, c);
    if ntt {
        assert forall|t: int| 0 <= t < 256 implies spec_ntt_mul(a, bc)[t] == spec_add_poly(
            spec_ntt_mul(a, b),
            spec_ntt_mul(a, c),
        )[t] by {
            let i = t / 4;
            let z = crate::ring::ZETAS[64 + i] as int;
            crate::ring::lemma_zetas_reduced();
            assert(0 <= i < 64);
            if t % 4 == 0 {
                lemma_base_mul_0_distributes(
                    a[4 * i],
                    a[4 * i + 1],
                    b[4 * i],
                    b[4 * i + 1],
                    c[4 * i],
                    c[4 * i + 1],
                    z,
                );
            } else if t % 4 == 1 {
                lemma_base_mul_1_distributes(
                    a[4 * i],
                    a[4 * i + 1],
                    b[4 * i],
                    b[4 * i + 1],
                    c[4 * i],
                    c[4 * i + 1],
                );
            } else if t % 4 == 2 {
                lemma_base_mul_0_distributes(
                    a[4 * i + 2],
                    a[4 * i + 3],
                    b[4 * i + 2],
                    b[4 * i + 3],
                    c[4 * i + 2],
                    c[4 * i + 3],
                    q - z,
                );
            } else {
                lemma_base_mul_1_distributes(
                    a[4 * i + 2],
                    a[4 * i + 3],
                    b[4 * i + 2],
                    b[4 * i + 3],
                    c[4 * i + 2],
                    c[4 * i + 3],
                );
            }
        };
        assert(spec_ntt_mul(a, bc) =~= spec_add_poly(spec_ntt_mul(a, b), spec_ntt_mul(a, c)));
    } else {
        assert forall|k: int| 0 <= k < 256 implies spec_school_mul(a, bc)[k] == spec_add_poly(
            spec_school_mul(a, b),
            spec_school_mul(a, c),
        )[k] by {
            lemma_school_sum_distributes(a, b, c, k, 256);
            vstd::arithmetic::div_mod::lemma_mod_bound(spec_school_sum(a, b, k, 256), q);
            vstd::arithmetic::div_mod::lemma_mod_bound(spec_school_sum(a, c, k, 256), q);
        };
        assert(spec_school_mul(a, bc) =~= spec_add_poly(
            spec_school_mul(a, b),
            spec_school_mul(a, c),
        ));
    }
}

/// Rearranging two polynomial additions: (x + y) + (z + w) equals
/// (x + z) + (y + w).
pub proof fn lemma_add_poly_exchange(x: Seq<u16>, y: Seq<u16>, z: Seq<u16>, w: Seq<u16>)
    requires
        x.len() == 256,
        y.len() == 256,
        z.len() == 256,
        w.len() == 256,
    ensures
        spec_add_poly(spec_add_poly(x, y), spec_add_poly(z, w)) == spec_add_poly(
            spec_add_poly(x, z),
            spec_add_poly(y, w),
        ),
{
    let q = Q as int;
    assert forall|i: int| 0 <= i < 256 implies spec_add_poly(
        spec_add_poly(x, y),
        spec_add_poly(z, w),
    )[i] == spec_add_poly(spec_add_poly(x, z), spec_add_poly(y, w))[i] by {
        lemma_add_mod_noop(x[i] + y[i], z[i] + w[i], q);
        lemma_add_mod_noop(x[i] + z[i], y[i] + w[i], q);
    };
    assert(spec_add_poly(spec_add_poly(x, y), spec_add_poly(z, w)) =~= spec_add_poly(
        spec_add_poly(x, z),
        spec_add_poly(y, w),
    ));
}

/// Matrix multiplication distributes over addition: the dot product of a
/// row against a column of element-wise sums is the polynomial sum of
/// the two dot products.
pub proof fn lemma_dot_distributes(
    row: Seq<Seq<u16>>,
    cola: Seq<Seq<u16>>,
    colb: Seq<Seq<u16>>,
    colab: Seq<Seq<u16>>,
    n: nat,
    ntt: bool,
)
    requires
        row.len() >= n,
        cola.len() >= n,
        colb.len() >= n,
        colab.len() >= n,
        forall|t: int| 0 <= t < n ==> poly_wf(#[trigger] row[t]),
        forall|t: int| 0 <= t < n ==> poly_wf(#[trigger] cola[t]),
        forall|t: int| 0 <= t < n ==> poly_wf(#[trigger] colb[t]),
        forall|t: int| 0 <= t < n ==> #[trigger] colab[t] == spec_add_poly(cola[t], colb[t]),
    ensures
        spec_dot(row, colab, n, ntt) == spec_add_poly(
            spec_dot(row, cola, n, ntt),
            spec_dot(row, colb, n, ntt),
        ),
    decreases n,
{
    if n == 0 {
        assert(poly_wf(spec_zero_poly())) by {
            assert(forall|i: int| 0 <= i < 256 ==> spec_zero_poly()[i] == 0u16);
        };
        lemma_add_zero_right(spec_zero_poly());
    } else {
        lemma_dot_distributes(row, cola, colb, colab, (n - 1) as nat, ntt);
        lemma_mul_poly_distributes(row[n - 1], cola[n - 1], colb[n - 1], ntt);
        lemma_add_poly_exchange(
            spec_dot(row, cola, (n - 1) as nat, ntt),
            spec_dot(row, colb, (n - 1) as nat, ntt),
            spec_mul_poly(row[n - 1], cola[n - 1], ntt),
            spec_mul_poly(row[n - 1], colb[n - 1], ntt),
        );
    }
}

/// M times a zero module is the zero module, stated over whole modules:
/// every entry of the product against a module of zero polynomials is
/// the zero polynomial.
pub proof fn lemma_mat_mul_zero_module(m: Module, z: Module, i: int, j: int)
    requires
        m.wf(),
        z.wf(),
        m.cols() == z.rows(),
        m.domain() == z.domain(),
        0 <= i < m.rows(),
        0 <= j < z.cols(),
        forall|r: int, c: int|
            0 <= r < z.rows() && 0 <= c < z.cols() ==> #[trigger] z.entry_coeffs(r, c)
                == spec_zero_poly(),
    ensures
        spec_dot(m.row_coeffs(i), z.col_coeffs(j), m.cols() as nat, m.domain())
            == spec_zero_poly(),
{
    lemma_dot_zero(m.row_coeffs(i), z.col_coeffs(j), m.cols() as nat, m.domain());
}

/// M times the identity module is M, stated over whole modules: every
/// entry of the product against the normal-domain identity matrix is the
/// corresponding entry of M.
pub proof fn lemma_mat_mul_identity_module(m: Module, ident: Module, i: int, j: int)
    requires
        m.wf(),
        ident.wf(),
        m.domain() == false,
        ident.domain() == false,
        m.cols() == ident.rows(),
        ident.rows() == ident.cols(),
        0 <= i < m.rows(),
        0 <= j < ident.cols(),
        forall|r: int, c: int|
            0 <= r < ident.rows() && 0 <= c < ident.cols() ==> #[trigger] ident.entry_coeffs(r, c)
                == if r == c {
                spec_one_poly()
            } else {
                spec_zero_poly()
            },
    ensures
        spec_dot(m.row_coeffs(i), ident.col_coeffs(j), m.cols() as nat, false) == m.entry_coeffs(
            i,
            j,
        ),
{
    lemma_dot_identity(m.row_coeffs(i), ident.col_coeffs(j), m.cols() as nat, j);
    assert(m.row_coeffs(i)[j] == m.entry_coeffs(i, j));
}

/// Matrix multiplication distributes over module addition, stated over
/// whole modules: with S the element-wise sum of A and B, every entry of
/// M S is the polynomial sum of the entries of M A and M B.
pub proof fn lemma_mat_mul_distributes_module(
    m: Module,
    a: Module,
    b: Module,
    s: Module,
    i: int,
    j: int,
)
    requires
        m.wf(),
        a.wf(),
        b.wf(),
        s.wf(),
        m.cols() == a.rows(),
        a.rows() == b.rows() && a.cols() == b.cols(),
        s.rows() == a.rows() && s.cols() == a.cols(),
        m.domain() == a.domain() && a.domain() == b.domain() && s.domain() == a.domain(),
        0 <= i < m.rows(),
        0 <= j < a.cols(),
        forall|r: int, c: int|
            0 <= r < a.rows() && 0 <= c < a.cols() ==> #[trigger] s.entry_coeffs(r, c)
                == spec_add_poly(a.entry_coeffs(r, c), b.entry_coeffs(r, c)),
    ensures
        spec_dot(m.row_coeffs(i), s.col_coeffs(j), m.cols() as nat, m.domain()) == spec_add_poly(
            spec_dot(m.row_coeffs(i), a.col_coeffs(j), m.cols() as nat, m.domain()),
            spec_dot(m.row_coeffs(i), b.col_coeffs(j), m.cols() as nat, m.domain()),
        ),
{
    lemma_dot_distributes(
        m.row_coeffs(i),
        a.col_coeffs(j),
        b.col_coeffs(j),
        s.col_coeffs(j),
        m.cols() as nat,
        m.domain(),
    );
}

} // verus!
