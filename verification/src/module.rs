//! Modules over R_q: two-dimensional arrays of ring elements with a
//! cheap transpose view, matrix multiplication, dot products and the
//! per-element maps the KEM needs.

use vstd::prelude::*;

use vstd::arithmetic::div_mod::lemma_fundamental_div_mod_converse;
use vstd::arithmetic::power2::pow2;

use crate::codec::lemma_mul_upper;
use crate::codec::spec_compress;
use crate::codec::spec_decode;
use crate::codec::spec_decompress;
use crate::codec::spec_encode;
use crate::errors::MlKemError;
use crate::ntt::spec_inv_ntt;
use crate::ntt::spec_ntt;
use crate::products::spec_ntt_mul;
use crate::products::spec_school_mul;
use crate::ring::poly_wf;
use crate::ring::spec_add_poly;
use crate::ring::spec_zero_poly;
use crate::ring::Ring;

verus! {

/// The ring product in the domain both operands share.
pub open spec fn spec_mul_poly(a: Seq<u16>, b: Seq<u16>, ntt: bool) -> Seq<u16> {
    if ntt {
        spec_ntt_mul(a, b)
    } else {
        spec_school_mul(a, b)
    }
}

/// The dot product of n coefficient sequences against n others,
/// accumulated left to right from the zero polynomial.
pub open spec fn spec_dot(row: Seq<Seq<u16>>, col: Seq<Seq<u16>>, n: nat, ntt: bool) -> Seq<u16>
    decreases n,
{
    if n == 0 {
        spec_zero_poly()
    } else {
        spec_add_poly(
            spec_dot(row, col, (n - 1) as nat, ntt),
            spec_mul_poly(row[n - 1], col[n - 1], ntt),
        )
    }
}

/// A matrix or vector of ring elements. The storage is row-major; the
/// transpose flag swaps the logical coordinates without copying.
#[derive(Debug)]
pub struct Module {
    pub data: Vec<Vec<Ring>>,
    pub transpose: bool,
}

impl Module {
    /// The storage is a non-empty rectangle of well-formed ring elements
    /// that all share one domain tag.
    pub open spec fn wf(self) -> bool {
        &&& self.data@.len() >= 1
        &&& self.data@[0]@.len() >= 1
        &&& forall|r: int| 0 <= r < self.data@.len() ==> (#[trigger] self.data@[r])@.len()
            == self.data@[0]@.len()
        &&& forall|r: int, c: int|
            0 <= r < self.data@.len() && 0 <= c < self.data@[0]@.len() ==> (
            #[trigger] self.data@[r]@[c]).wf()
        &&& forall|r: int, c: int|
            0 <= r < self.data@.len() && 0 <= c < self.data@[0]@.len() ==> (
            #[trigger] self.data@[r]@[c]).is_ntt == self.domain()
    }

    /// The domain tag all elements share.
    pub open spec fn domain(self) -> bool {
        self.data@[0]@[0].is_ntt
    }

    /// The logical row count, after the transpose view.
    pub open spec fn rows(self) -> int {
        if self.transpose {
            self.data@[0]@.len() as int
        } else {
            self.data@.len() as int
        }
    }

    /// The logical column count, after the transpose view.
    pub open spec fn cols(self) -> int {
        if self.transpose {
            self.data@.len() as int
        } else {
            self.data@[0]@.len() as int
        }
    }

    /// The element at logical position (i, j).
    pub open spec fn entry(self, i: int, j: int) -> Ring {
        if self.transpose {
            self.data@[j]@[i]
        } else {
            self.data@[i]@[j]
        }
    }

    /// The coefficients of the element at logical position (i, j).
    pub open spec fn entry_coeffs(self, i: int, j: int) -> Seq<u16> {
        self.entry(i, j).coefficients@
    }

    /// The logical row i as a sequence of coefficient sequences.
    pub open spec fn row_coeffs(self, i: int) -> Seq<Seq<u16>> {
        Seq::new(self.cols() as nat, |t: int| self.entry_coeffs(i, t))
    }

    /// The logical column j as a sequence of coefficient sequences.
    pub open spec fn col_coeffs(self, j: int) -> Seq<Seq<u16>> {
        Seq::new(self.rows() as nat, |t: int| self.entry_coeffs(t, j))
    }

    /// Every coefficient of every element fits in d bits.
    pub open spec fn fits(self, d: nat) -> bool {
        forall|i: int, j: int, t: int|
            0 <= i < self.rows() && 0 <= j < self.cols() && 0 <= t < 256 ==> #[trigger] (
            self.entry_coeffs(i, j)[t]) < pow2(d)
    }

    /// Wraps a rectangle of ring elements with the given transpose view.
    pub fn new(data: Vec<Vec<Ring>>, transpose: bool) -> (r: Module)
        requires
            data@.len() >= 1,
            data@[0]@.len() >= 1,
            forall|r: int| 0 <= r < data@.len() ==> (#[trigger] data@[r])@.len()
                == data@[0]@.len(),
            forall|r: int, c: int|
                0 <= r < data@.len() && 0 <= c < data@[0]@.len() ==> (
                #[trigger] data@[r]@[c]).wf(),
            forall|r: int, c: int|
                0 <= r < data@.len() && 0 <= c < data@[0]@.len() ==> (
                #[trigger] data@[r]@[c]).is_ntt == data@[0]@[0].is_ntt,
        ensures
            r.wf(),
            r.data@ == data@,
            r.transpose == transpose,
    {
        Module { data, transpose }
    }

    /// The logical shape (rows, columns).
    pub fn dim(&self) -> (r: (usize, usize))
        requires
            self.wf(),
        ensures
            r.0 == self.rows(),
            r.1 == self.cols(),
    {
        if self.transpose {
            (self.data[0].len(), self.data.len())
        } else {
            (self.data.len(), self.data[0].len())
        }
    }

    /// Whether the transpose view is active.
    pub fn transpose(&self) -> (r: bool)
        ensures
            r == self.transpose,
    {
        self.transpose
    }

    /// A module of the given shape filled with random normal-domain ring
    /// elements, for exercising the module algebra.
    pub fn random(m: usize, n: usize) -> (r: Module)
        requires
            1 <= m,
            1 <= n,
        ensures
            r.wf(),
            r.transpose == false,
            r.rows() == m,
            r.cols() == n,
            r.domain() == false,
    {
        let mut data: Vec<Vec<Ring>> = Vec::new();
        let mut i: usize = 0;
        while i < m
            invariant
                i <= m,
                1 <= n,
                data@.len() == i,
                forall|r: int| 0 <= r < i ==> (#[trigger] data@[r])@.len() == n,
                forall|r: int, c: int| 0 <= r < i && 0 <= c < n ==> (
                #[trigger] data@[r]@[c]).wf(),
                forall|r: int, c: int| 0 <= r < i && 0 <= c < n ==> (
                #[trigger] data@[r]@[c]).is_ntt == false,
            decreases m - i,
        {
            let mut row: Vec<Ring> = Vec::new();
            let mut j: usize = 0;
            while j < n
                invariant
                    j <= n,
                    row@.len() == j,
                    forall|c: int| 0 <= c < j ==> (#[trigger] row@[c]).wf(),
                    forall|c: int| 0 <= c < j ==> (#[trigger] row@[c]).is_ntt == false,
                decreases n - j,
            {
                row.push(Ring::random());
                j += 1;
            }
            data.push(row);
            i += 1;
        }
        Module { data, transpose: false }
    }

    /// A reference to the element at logical position (i, j).
    fn get(&self, i: usize, j: usize) -> (r: &Ring)
        requires
            self.wf(),
            i < self.rows(),
            j < self.cols(),
        ensures
            *r == self.entry(i as int, j as int),
    {
        if self.transpose {
            &self.data[j][i]
        } else {
            &self.data[i][j]
        }
    }

    /// Matrix multiplication. The shapes must chain and the domains must
    /// agree; the result drops the transpose view.
    pub fn mat_mul(&self, rhs: &Module) -> (r: Result<Module, MlKemError>)
        requires
            self.wf(),
            rhs.wf(),
        ensures
            self.cols() != rhs.rows() ==> (r matches Err(e) && e
                == MlKemError::DimensionMismatch),
            self.cols() == rhs.rows() && self.domain() != rhs.domain() ==> (r matches Err(e) && e
                == MlKemError::DomainMismatch),
            r is Ok <==> (self.cols() == rhs.rows() && self.domain() == rhs.domain()),
            r matches Ok(p) ==> {
                &&& p.wf()
                &&& p.transpose == false
                &&& p.rows() == self.rows()
                &&& p.cols() == rhs.cols()
                &&& p.domain() == self.domain()
                &&& forall|i: int, j: int|
                    0 <= i < self.rows() && 0 <= j < rhs.cols() ==> #[trigger] p.entry_coeffs(
                        i,
                        j,
                    ) == spec_dot(
                        self.row_coeffs(i),
                        rhs.col_coeffs(j),
                        self.cols() as nat,
                        self.domain(),
                    )
            },
    {
        let (m1, n1) = self.dim();
        let (m2, n2) = rhs.dim();
        if n1 != m2 {
            return Err(MlKemError::DimensionMismatch);
        }
        let dom = self.get(0, 0).is_ntt;
        let rdom = rhs.get(0, 0).is_ntt;
        if dom != rdom {
            return Err(MlKemError::DomainMismatch);
        }
        let mut data: Vec<Vec<Ring>> = Vec::new();
        let mut i: usize = 0;
        while i < m1
            invariant
                i <= m1,
                self.wf(),
                rhs.wf(),
                m1 == self.rows(),
                n1 == self.cols(),
                n1 == rhs.rows(),
                n2 == rhs.cols(),
                dom == self.domain(),
                dom == rhs.domain(),
                data@.len() == i,
                forall|r: int| 0 <= r < i ==> (#[trigger] data@[r])@.len() == n2,
                forall|r: int, c: int| 0 <= r < i && 0 <= c < n2 ==> (
                #[trigger] data@[r]@[c]).wf(),
                forall|r: int, c: int| 0 <= r < i && 0 <= c < n2 ==> (
                #[trigger] data@[r]@[c]).is_ntt == dom,
                forall|r: int, c: int|
                    0 <= r < i && 0 <= c < n2 ==> (#[trigger] data@[r]@[c]).coefficients@
                        == spec_dot(
                        self.row_coeffs(r),
                        rhs.col_coeffs(c),
                        n1 as nat,
                        dom,
                    ),
            decreases m1 - i,
        {
            let mut row: Vec<Ring> = Vec::new();
            let mut j: usize = 0;
            while j < n2
                invariant
                    j <= n2,
                    i < m1,
                    self.wf(),
                    rhs.wf(),
                    m1 == self.rows(),
                    n1 == self.cols(),
                    n1 == rhs.rows(),
                    n2 == rhs.cols(),
                    dom == self.domain(),
                    dom == rhs.domain(),
                    row@.len() == j,
                    forall|c: int| 0 <= c < j ==> (#[trigger] row@[c]).wf(),
                    forall|c: int| 0 <= c < j ==> (#[trigger] row@[c]).is_ntt == dom,
                    forall|c: int|
                        0 <= c < j ==> (#[trigger] row@[c]).coefficients@ == spec_dot(
                            self.row_coeffs(i as int),
                            rhs.col_coeffs(c),
                            n1 as nat,
                            dom,
                        ),
                decreases n2 - j,
            {
                let mut acc: Ring = Ring::zero_in(dom);
                let mut t: usize = 0;
                while t < n1
                    invariant
                        t <= n1,
                        i < m1,
                        j < n2,
                        self.wf(),
                        rhs.wf(),
                        m1 == self.rows(),
                        n1 == self.cols(),
                        n1 == rhs.rows(),
                        n2 == rhs.cols(),
                        dom == self.domain(),
                        dom == rhs.domain(),
                        acc.wf(),
                        acc.is_ntt == dom,
                        acc.coefficients@ == spec_dot(
                            self.row_coeffs(i as int),
                            rhs.col_coeffs(j as int),
                            t as nat,
                            dom,
                        ),
                    decreases n1 - t,
                {
                    let a = self.get(i, t);
                    let b = rhs.get(t, j);
                    let prod = a.mul(b).unwrap();
                    acc = acc.add(&prod);
                    proof {
                        assert(self.row_coeffs(i as int)[t as int] == self.entry_coeffs(
                            i as int,
                            t as int,
                        ));
                        assert(rhs.col_coeffs(j as int)[t as int] == rhs.entry_coeffs(
                            t as int,
                            j as int,
                        ));
                    }
                    t += 1;
                }
                row.push(acc);
                j += 1;
            }
            data.push(row);
            i += 1;
        }
        let p = Module { data, transpose: false };
        Ok(p)
    }

    /// The dot product of two column vectors of equal length, in their
    /// shared domain.
    pub fn dot(&self, rhs: &Module) -> (r: Result<Ring, MlKemError>)
        requires
            self.wf(),
            rhs.wf(),
        ensures
            r is Ok <==> (self.cols() == 1 && rhs.cols() == 1 && self.rows() == rhs.rows()
                && self.domain() == rhs.domain()),
            r matches Ok(p) ==> {
                &&& p.wf()
                &&& p.is_ntt == self.domain()
                &&& p.coefficients@ == spec_dot(
                    self.col_coeffs(0),
                    rhs.col_coeffs(0),
                    self.rows() as nat,
                    self.domain(),
                )
            },
            r matches Err(e) ==> (e == MlKemError::DimensionMismatch || e
                == MlKemError::DomainMismatch),
    {
        let (m1, n1) = self.dim();
        let (m2, n2) = rhs.dim();
        if n1 != 1 || n2 != 1 || m1 != m2 {
            return Err(MlKemError::DimensionMismatch);
        }
        let dom = self.get(0, 0).is_ntt;
        if dom != rhs.get(0, 0).is_ntt {
            return Err(MlKemError::DomainMismatch);
        }
        let mut acc: Ring = Ring::zero_in(dom);
        let mut t: usize = 0;
        while t < m1
            invariant
                t <= m1,
                self.wf(),
                rhs.wf(),
                m1 == self.rows(),
                m1 == rhs.rows(),
                1 == self.cols(),
                1 == rhs.cols(),
                dom == self.domain(),
                dom == rhs.domain(),
                acc.wf(),
                acc.is_ntt == dom,
                acc.coefficients@ == spec_dot(
                    self.col_coeffs(0),
                    rhs.col_coeffs(0),
                    t as nat,
                    dom,
                ),
            decreases m1 - t,
        {
            let a = self.get(t, 0);
            let b = rhs.get(t, 0);
            let prod = a.mul(b).unwrap();
            acc = acc.add(&prod);
            proof {
                assert(self.col_coeffs(0)[t as int] == self.entry_coeffs(t as int, 0));
                assert(rhs.col_coeffs(0)[t as int] == rhs.entry_coeffs(t as int, 0));
            }
            t += 1;
        }
        Ok(acc)
    }

    /// Element-wise addition of two modules of the same logical shape and
    /// domain; the result drops the transpose view.
    pub fn add(&self, rhs: &Module) -> (r: Result<Module, MlKemError>)
        requires
            self.wf(),
            rhs.wf(),
        ensures
            r is Ok <==> (self.rows() == rhs.rows() && self.cols() == rhs.cols() && self.domain()
                == rhs.domain()),
            r matches Ok(p) ==> {
                &&& p.wf()
                &&& p.transpose == false
                &&& p.rows() == self.rows()
                &&& p.cols() == self.cols()
                &&& p.domain() == self.domain()
                &&& forall|i: int, j: int|
                    0 <= i < self.rows() && 0 <= j < self.cols() ==> #[trigger] p.entry_coeffs(
                        i,
                        j,
                    ) == spec_add_poly(self.entry_coeffs(i, j), rhs.entry_coeffs(i, j))
            },
            r matches Err(e) ==> (e == MlKemError::DimensionMismatch || e
                == MlKemError::DomainMismatch),
    {
        let (m1, n1) = self.dim();
        let (m2, n2) = rhs.dim();
        if m1 != m2 || n1 != n2 {
            return Err(MlKemError::DimensionMismatch);
        }
        let dom = self.get(0, 0).is_ntt;
        if dom != rhs.get(0, 0).is_ntt {
            return Err(MlKemError::DomainMismatch);
        }
        let mut data: Vec<Vec<Ring>> = Vec::new();
        let mut i: usize = 0;
        while i < m1
            invariant
                i <= m1,
                self.wf(),
                rhs.wf(),
                m1 == self.rows(),
                n1 == self.cols(),
                m1 == rhs.rows(),
                n1 == rhs.cols(),
                dom == self.domain(),
                dom == rhs.domain(),
                data@.len() == i,
                forall|r: int| 0 <= r < i ==> (#[trigger] data@[r])@.len() == n1,
                forall|r: int, c: int| 0 <= r < i && 0 <= c < n1 ==> (
                #[trigger] data@[r]@[c]).wf(),
                forall|r: int, c: int| 0 <= r < i && 0 <= c < n1 ==> (
                #[trigger] data@[r]@[c]).is_ntt == dom,
                forall|r: int, c: int|
                    0 <= r < i && 0 <= c < n1 ==> (#[trigger] data@[r]@[c]).coefficients@
                        == spec_add_poly(self.entry_coeffs(r, c), rhs.entry_coeffs(r, c)),
            decreases m1 - i,
        {
            let mut row: Vec<Ring> = Vec::new();
            let mut j: usize = 0;
            while j < n1
                invariant
                    j <= n1,
                    i < m1,
                    self.wf(),
                    rhs.wf(),
                    m1 == self.rows(),
                    n1 == self.cols(),
                    m1 == rhs.rows(),
                    n1 == rhs.cols(),
                    dom == self.domain(),
                    dom == rhs.domain(),
                    row@.len() == j,
                    forall|c: int| 0 <= c < j ==> (#[trigger] row@[c]).wf(),
                    forall|c: int| 0 <= c < j ==> (#[trigger] row@[c]).is_ntt == dom,
                    forall|c: int|
                        0 <= c < j ==> (#[trigger] row@[c]).coefficients@ == spec_add_poly(
                            self.entry_coeffs(i as int, c),
                            rhs.entry_coeffs(i as int, c),
                        ),
                decreases n1 - j,
            {
                let s = self.get(i, j).add(rhs.get(i, j));
                row.push(s);
                j += 1;
            }
            data.push(row);
            i += 1;
        }
        let p = Module { data, transpose: false };
        Ok(p)
    }
}

/// Each coefficient sequence in the list encoded at d bits, concatenated.
pub open spec fn spec_encode_each(v: Seq<Seq<u16>>, d: nat) -> Seq<u8>
    decreases v.len(),
{
    if v.len() == 0 {
        Seq::empty()
    } else {
        spec_encode_each(v.drop_last(), d) + spec_encode(v.last(), d)
    }
}

/// The storage cells of a module in row-major order, as coefficient
/// sequences; the transpose view plays no part.
pub open spec fn storage_cells(m: Module) -> Seq<Seq<u16>> {
    Seq::new(
        m.data@.len() * m.data@[0]@.len(),
        |t: int| m.data@[t / m.data@[0]@.len() as int]@[t % m.data@[0]@.len() as int].coefficients@,
    )
}

impl Module {
    /// Applies the forward NTT to every element, keeping the shape and
    /// the transpose view.
    pub fn to_ntt(&self) -> (r: Module)
        requires
            self.wf(),
            self.domain() == false,
        ensures
            r.wf(),
            r.transpose == self.transpose,
            r.rows() == self.rows(),
            r.cols() == self.cols(),
            r.domain() == true,
            forall|i: int, j: int|
                0 <= i < self.rows() && 0 <= j < self.cols() ==> #[trigger] r.entry_coeffs(i, j)
                    == spec_ntt(self.entry_coeffs(i, j)),
    {
        let nr = self.data.len();
        let nc = self.data[0].len();
        let mut data: Vec<Vec<Ring>> = Vec::new();
        let mut i: usize = 0;
        while i < nr
            invariant
                i <= nr,
                self.wf(),
                self.domain() == false,
                nr == self.data@.len(),
                nc == self.data@[0]@.len(),
                data@.len() == i,
                forall|r: int| 0 <= r < i ==> (#[trigger] data@[r])@.len() == nc,
                forall|r: int, c: int| 0 <= r < i && 0 <= c < nc ==> (
                #[trigger] data@[r]@[c]).wf(),
                forall|r: int, c: int| 0 <= r < i && 0 <= c < nc ==> (
                #[trigger] data@[r]@[c]).is_ntt == true,
                forall|r: int, c: int|
                    0 <= r < i && 0 <= c < nc ==> (#[trigger] data@[r]@[c]).coefficients@
                        == spec_ntt(self.data@[r]@[c].coefficients@),
            decreases nr - i,
        {
            let mut row: Vec<Ring> = Vec::new();
            let mut j: usize = 0;
            while j < nc
                invariant
                    j <= nc,
                    i < nr,
                    self.wf(),
                    self.domain() == false,
                    nr == self.data@.len(),
                    nc == self.data@[0]@.len(),
                    row@.len() == j,
                    forall|c: int| 0 <= c < j ==> (#[trigger] row@[c]).wf(),
                    forall|c: int| 0 <= c < j ==> (#[trigger] row@[c]).is_ntt == true,
                    forall|c: int|
                        0 <= c < j ==> (#[trigger] row@[c]).coefficients@ == spec_ntt(
                            self.data@[i as int]@[c].coefficients@,
                        ),
                decreases nc - j,
            {
                row.push(self.data[i][j].to_ntt());
                j += 1;
            }
            data.push(row);
            i += 1;
        }
        Module { data, transpose: self.transpose }
    }

    /// Applies the inverse NTT to every element, keeping the shape and
    /// the transpose view.
    pub fn from_ntt(&self) -> (r: Module)
        requires
            self.wf(),
            self.domain() == true,
        ensures
            r.wf(),
            r.transpose == self.transpose,
            r.rows() == self.rows(),
            r.cols() == self.cols(),
            r.domain() == false,
            forall|i: int, j: int|
                0 <= i < self.rows() && 0 <= j < self.cols() ==> #[trigger] r.entry_coeffs(i, j)
                    == spec_inv_ntt(self.entry_coeffs(i, j)),
    {
        let nr = self.data.len();
        let nc = self.data[0].len();
        let mut data: Vec<Vec<Ring>> = Vec::new();
        let mut i: usize = 0;
        while i < nr
            invariant
                i <= nr,
                self.wf(),
                self.domain() == true,
                nr == self.data@.len(),
                nc == self.data@[0]@.len(),
                data@.len() == i,
                forall|r: int| 0 <= r < i ==> (#[trigger] data@[r])@.len() == nc,
                forall|r: int, c: int| 0 <= r < i && 0 <= c < nc ==> (
                #[trigger] data@[r]@[c]).wf(),
                forall|r: int, c: int| 0 <= r < i && 0 <= c < nc ==> (
                #[trigger] data@[r]@[c]).is_ntt == false,
                forall|r: int, c: int|
                    0 <= r < i && 0 <= c < nc ==> (#[trigger] data@[r]@[c]).coefficients@
                        == spec_inv_ntt(self.data@[r]@[c].coefficients@),
            decreases nr - i,
        {
            let mut row: Vec<Ring> = Vec::new();
            let mut j: usize = 0;
            while j < nc
                invariant
                    j <= nc,
                    i < nr,
                    self.wf(),
                    self.domain() == true,
                    nr == self.data@.len(),
                    nc == self.data@[0]@.len(),
                    row@.len() == j,
                    forall|c: int| 0 <= c < j ==> (#[trigger] row@[c]).wf(),
                    forall|c: int| 0 <= c < j ==> (#[trigger] row@[c]).is_ntt == false,
                    forall|c: int|
                        0 <= c < j ==> (#[trigger] row@[c]).coefficients@ == spec_inv_ntt(
                            self.data@[i as int]@[c].coefficients@,
                        ),
                decreases nc - j,
            {
                row.push(self.data[i][j].from_ntt());
                j += 1;
            }
            data.push(row);
            i += 1;
        }
        Module { data, transpose: self.transpose }
    }

    /// Compresses every element to d bits, keeping the shape, the domain
    /// and the transpose view.
    pub fn compress(&self, d: u8) -> (r: Module)
        requires
            self.wf(),
            1 <= d <= 11,
        ensures
            r.wf(),
            r.transpose == self.transpose,
            r.rows() == self.rows(),
            r.cols() == self.cols(),
            r.domain() == self.domain(),
            forall|i: int, j: int|
                0 <= i < self.rows() && 0 <= j < self.cols() ==> #[trigger] r.entry_coeffs(i, j)
                    == spec_compress(self.entry_coeffs(i, j), d as nat),
    {
        let nr = self.data.len();
        let nc = self.data[0].len();
        let ghost dom = self.domain();
        let mut data: Vec<Vec<Ring>> = Vec::new();
        let mut i: usize = 0;
        while i < nr
            invariant
                i <= nr,
                1 <= d <= 11,
                self.wf(),
                dom == self.domain(),
                nr == self.data@.len(),
                nc == self.data@[0]@.len(),
                data@.len() == i,
                forall|r: int| 0 <= r < i ==> (#[trigger] data@[r])@.len() == nc,
                forall|r: int, c: int| 0 <= r < i && 0 <= c < nc ==> (
                #[trigger] data@[r]@[c]).wf(),
                forall|r: int, c: int| 0 <= r < i && 0 <= c < nc ==> (
                #[trigger] data@[r]@[c]).is_ntt == dom,
                forall|r: int, c: int|
                    0 <= r < i && 0 <= c < nc ==> (#[trigger] data@[r]@[c]).coefficients@
                        == spec_compress(self.data@[r]@[c].coefficients@, d as nat),
            decreases nr - i,
        {
            let mut row: Vec<Ring> = Vec::new();
            let mut j: usize = 0;
            while j < nc
                invariant
                    j <= nc,
                    i < nr,
                    1 <= d <= 11,
                    self.wf(),
                    dom == self.domain(),
                    nr == self.data@.len(),
                    nc == self.data@[0]@.len(),
                    row@.len() == j,
                    forall|c: int| 0 <= c < j ==> (#[trigger] row@[c]).wf(),
                    forall|c: int| 0 <= c < j ==> (#[trigger] row@[c]).is_ntt == dom,
                    forall|c: int|
                        0 <= c < j ==> (#[trigger] row@[c]).coefficients@ == spec_compress(
                            self.data@[i as int]@[c].coefficients@,
                            d as nat,
                        ),
                decreases nc - j,
            {
                row.push(self.data[i][j].compress(d));
                j += 1;
            }
            data.push(row);
            i += 1;
        }
        Module { data, transpose: self.transpose }
    }

    /// Decompresses every element from d bits, keeping the shape, the
    /// domain and the transpose view.
    pub fn decompress(&self, d: u8) -> (r: Module)
        requires
            self.wf(),
            1 <= d <= 11,
            self.fits(d as nat),
        ensures
            r.wf(),
            r.transpose == self.transpose,
            r.rows() == self.rows(),
            r.cols() == self.cols(),
            r.domain() == self.domain(),
            forall|i: int, j: int|
                0 <= i < self.rows() && 0 <= j < self.cols() ==> #[trigger] r.entry_coeffs(i, j)
                    == spec_decompress(self.entry_coeffs(i, j), d as nat),
    {
        let nr = self.data.len();
        let nc = self.data[0].len();
        let ghost dom = self.domain();
        let mut data: Vec<Vec<Ring>> = Vec::new();
        let mut i: usize = 0;
        while i < nr
            invariant
                i <= nr,
                1 <= d <= 11,
                self.wf(),
                self.fits(d as nat),
                dom == self.domain(),
                nr == self.data@.len(),
                nc == self.data@[0]@.len(),
                data@.len() == i,
                forall|r: int| 0 <= r < i ==> (#[trigger] data@[r])@.len() == nc,
                forall|r: int, c: int| 0 <= r < i && 0 <= c < nc ==> (
                #[trigger] data@[r]@[c]).wf(),
                forall|r: int, c: int| 0 <= r < i && 0 <= c < nc ==> (
                #[trigger] data@[r]@[c]).is_ntt == dom,
                forall|r: int, c: int|
                    0 <= r < i && 0 <= c < nc ==> (#[trigger] data@[r]@[c]).coefficients@
                        == spec_decompress(self.data@[r]@[c].coefficients@, d as nat),
            decreases nr - i,
        {
            let mut row: Vec<Ring> = Vec::new();
            let mut j: usize = 0;
            while j < nc
                invariant
                    j <= nc,
                    i < nr,
                    1 <= d <= 11,
                    self.wf(),
                    self.fits(d as nat),
                    dom == self.domain(),
                    nr == self.data@.len(),
                    nc == self.data@[0]@.len(),
                    row@.len() == j,
                    forall|c: int| 0 <= c < j ==> (#[trigger] row@[c]).wf(),
                    forall|c: int| 0 <= c < j ==> (#[trigger] row@[c]).is_ntt == dom,
                    forall|c: int|
                        0 <= c < j ==> (#[trigger] row@[c]).coefficients@ == spec_decompress(
                            self.data@[i as int]@[c].coefficients@,
                            d as nat,
                        ),
                decreases nc - j,
            {
                proof {
                    if self.transpose {
                        assert(self.entry_coeffs(j as int, i as int)
                            == self.data@[i as int]@[j as int].coefficients@);
                    } else {
                        assert(self.entry_coeffs(i as int, j as int)
                            == self.data@[i as int]@[j as int].coefficients@);
                    }
                }
                row.push(self.data[i][j].decompress(d));
                j += 1;
            }
            data.push(row);
            i += 1;
        }
        Module { data, transpose: self.transpose }
    }

    /// Encodes every storage cell at d bits and concatenates the bytes in
    /// row-major storage order.
    pub fn encode(&self, d: usize) -> (r: Vec<u8>)
        requires
            self.wf(),
            1 <= d <= 12,
        ensures
            r@ == spec_encode_each(storage_cells(*self), d as nat),
            r@.len() == self.data@.len() * self.data@[0]@.len() * 32 * d,
    {
        let nr = self.data.len();
        let nc = self.data[0].len();
        let ghost cells = storage_cells(*self);
        let mut out: Vec<u8> = Vec::new();
        let mut i: usize = 0;
        proof {
            assert(0int * nc as int * 32 * d as int == 0) by (nonlinear_arith);
            assert(0int * nc as int == 0) by (nonlinear_arith);
        }
        while i < nr
            invariant
                i <= nr,
                1 <= d <= 12,
                self.wf(),
                nr == self.data@.len(),
                nc == self.data@[0]@.len(),
                cells == storage_cells(*self),
                out@ == spec_encode_each(cells.take((i * nc) as int), d as nat),
                out@.len() == i * nc * 32 * d,
            decreases nr - i,
        {
            let mut j: usize = 0;
            while j < nc
                invariant
                    j <= nc,
                    i < nr,
                    1 <= d <= 12,
                    self.wf(),
                    nr == self.data@.len(),
                    nc == self.data@[0]@.len(),
                    cells == storage_cells(*self),
                    out@ == spec_encode_each(cells.take((i * nc + j) as int), d as nat),
                    out@.len() == (i * nc + j) * 32 * d,
                decreases nc - j,
            {
                let mut bytes = self.data[i][j].encode(d);
                proof {
                    let t = i as int * nc as int + j as int;
                    lemma_fundamental_div_mod_converse(t, nc as int, i as int, j as int);
                    assert(0 <= t < nr as int * nc as int) by (nonlinear_arith)
                        requires
                            0 <= i as int,
                            (i as int) < (nr as int),
                            0 <= j as int,
                            (j as int) < (nc as int),
                            t == i as int * nc as int + j as int;
                    assert(cells[t] == self.data@[i as int]@[j as int].coefficients@);
                    assert(cells.take(t + 1).drop_last() =~= cells.take(t));
                    assert(cells.take(t + 1).last() == cells[t]);
                }
                out.append(&mut bytes);
                proof {
                    assert((i as int * nc as int + j as int + 1) * 32 * d as int == (i as int
                        * nc as int + j as int) * 32 * d as int + 32 * d as int)
                        by (nonlinear_arith);
                }
                j += 1;
            }
            proof {
                assert(i as int * nc as int + nc as int == (i as int + 1) * nc as int)
                    by (nonlinear_arith);
            }
            i += 1;
        }
        proof {
            assert(cells.take((nr * nc) as int) =~= cells);
            assert(nr as int * nc as int * 32 * d as int == out@.len()) by (nonlinear_arith)
                requires out@.len() == (nr as int * nc as int) * 32 * d as int;
        }
        out
    }

    /// Splits 32 * d * k bytes into a column vector of k elements, each
    /// decoded at d bits and tagged with the given domain. Fails exactly
    /// when the byte string has the wrong length.
    pub fn decode_vector(input_bytes: &[u8], k: usize, d: usize, is_ntt: bool) -> (r: Result<
        Module,
        MlKemError,
    >)
        requires
            1 <= d <= 12,
            1 <= k <= 8,
        ensures
            r is Ok <==> input_bytes@.len() == 32 * d * k,
            r matches Ok(p) ==> {
                &&& p.wf()
                &&& p.transpose == true
                &&& p.rows() == k
                &&& p.cols() == 1
                &&& p.domain() == is_ntt
                &&& p.fits(d as nat)
                &&& forall|i: int|
                    0 <= i < k ==> #[trigger] p.entry_coeffs(i, 0) == spec_decode(
                        input_bytes@.subrange(32 * d * i, 32 * d * (i + 1)),
                        d as nat,
                    )
            },
            r matches Err(e) ==> e == MlKemError::InvalidLength,
    {
        let chunk: usize = 32 * d;
        proof {
            lemma_mul_upper(chunk as int, k as int, 384, 8);
            assert(chunk as int * k as int == 32 * d as int * k as int) by (nonlinear_arith)
                requires chunk as int == 32 * d as int;
        }
        if input_bytes.len() != chunk * k {
            return Err(MlKemError::InvalidLength);
        }
        let mut elements: Vec<Ring> = Vec::new();
        let mut i: usize = 0;
        while i < k
            invariant
                i <= k,
                1 <= d <= 12,
                1 <= k <= 8,
                chunk == 32 * d,
                input_bytes@.len() == chunk * k,
                elements@.len() == i,
                forall|t: int| 0 <= t < i ==> (#[trigger] elements@[t]).wf(),
                forall|t: int| 0 <= t < i ==> (#[trigger] elements@[t]).is_ntt == is_ntt,
                forall|t: int|
                    0 <= t < i ==> (#[trigger] elements@[t]).coefficients@ == spec_decode(
                        input_bytes@.subrange(32 * d * t, 32 * d * (t + 1)),
                        d as nat,
                    ),
                forall|t: int, c: int|
                    0 <= t < i && 0 <= c < 256 ==> (#[trigger] elements@[t].coefficients@[c])
                        < pow2(d as nat),
            decreases k - i,
        {
            proof {
                lemma_mul_upper(chunk as int, i as int, 384, 8);
                assert(chunk as int * (i as int) + chunk as int == chunk as int * ((i as int)
                    + 1)) by (nonlinear_arith);
                assert(chunk as int * ((i as int) + 1) <= chunk as int * (k as int))
                    by (nonlinear_arith)
                    requires (i as int) + 1 <= k as int, 0 <= chunk as int;
                assert(chunk as int * (i as int) == 32 * d as int * (i as int))
                    by (nonlinear_arith)
                    requires chunk as int == 32 * d as int;
                assert(chunk as int * ((i as int) + 1) == 32 * d as int * ((i as int) + 1))
                    by (nonlinear_arith)
                    requires chunk as int == 32 * d as int;
                assert(chunk as int * (k as int) == input_bytes@.len());
            }
            let piece: &[u8] = &input_bytes[(chunk * i)..(chunk * i + chunk)];
            let ring = Ring::decode(piece, d, is_ntt).unwrap();
            elements.push(ring);
            i += 1;
        }
        let mut data: Vec<Vec<Ring>> = Vec::new();
        data.push(elements);
        let p = Module { data, transpose: true };
        proof {
            assert(p.rows() == k && p.cols() == 1);
            assert forall|i2: int| 0 <= i2 < k implies #[trigger] p.entry_coeffs(i2, 0)
                == spec_decode(
                input_bytes@.subrange(32 * d * i2, 32 * d * (i2 + 1)),
                d as nat,
            ) by {
                assert(p.entry(i2, 0) == p.data@[0]@[i2]);
            };
        }
        Ok(p)
    }
}

} // verus!
