//! A plain matrix of ring elements with a transpose view: construction,
//! shape, and the element-wise forward NTT.

use vstd::prelude::*;

use crate::ntt::spec_ntt;
use crate::ring::Ring;

verus! {

/// A rectangle of ring elements; the transpose flag swaps the logical
/// coordinates without copying the storage.
#[derive(Debug)]
pub struct Matrix {
    pub data: Vec<Vec<Ring>>,
    pub transpose: bool,
}

impl Matrix {
    /// The storage is a non-empty rectangle of well-formed elements.
    pub open spec fn wf(self) -> bool {
        &&& self.data@.len() >= 1
        &&& self.data@[0]@.len() >= 1
        &&& forall|r: int| 0 <= r < self.data@.len() ==> (#[trigger] self.data@[r])@.len()
            == self.data@[0]@.len()
        &&& forall|r: int, c: int|
            0 <= r < self.data@.len() && 0 <= c < self.data@[0]@.len() ==> (
            #[trigger] self.data@[r]@[c]).wf()
    }

    /// The logical row count, after the transpose view.
    pub open spec fn rows(self) -> int {
        if self.transpose {
            self.data@[0]@.len() as int
        } else {
            self.data@.len() as int
        }
    }

    /// The logical column count, after the transpose view.
    pub open spec fn cols(self) -> int {
        if self.transpose {
            self.data@.len() as int
        } else {
            self.data@[0]@.len() as int
        }
    }

    /// Wraps a rectangle of ring elements with the given transpose view.
    pub fn new(data: Vec<Vec<Ring>>, transpose: bool) -> (r: Matrix)
        requires
            data@.len() >= 1,
            data@[0]@.len() >= 1,
            forall|r: int| 0 <= r < data@.len() ==> (#[trigger] data@[r])@.len()
                == data@[0]@.len(),
            forall|r: int, c: int|
                0 <= r < data@.len() && 0 <= c < data@[0]@.len() ==> (
                #[trigger] data@[r]@[c]).wf(),
        ensures
            r.wf(),
            r.data@ == data@,
            r.transpose == transpose,
    {
        Matrix { data, transpose }
    }

    /// The logical shape (rows, columns).
    pub fn dim(&self) -> (r: (usize, usize))
        requires
            self.wf(),
        ensures
            r.0 == self.rows(),
            r.1 == self.cols(),
    {
        if self.transpose {
            (self.data[0].len(), self.data.len())
        } else {
            (self.data.len(), self.data[0].len())
        }
    }

    /// Applies the forward NTT to every element, keeping the shape and
    /// the transpose view. All elements must be in the normal domain.
    pub fn to_ntt(&self) -> (r: Matrix)
        requires
            self.wf(),
            forall|r: int, c: int|
                0 <= r < self.data@.len() && 0 <= c < self.data@[0]@.len() ==> (
                #[trigger] self.data@[r]@[c]).is_ntt == false,
        ensures
            r.wf(),
            r.transpose == self.transpose,
            r.data@.len() == self.data@.len(),
            forall|i: int, j: int|
                0 <= i < self.data@.len() && 0 <= j < self.data@[0]@.len() ==> (
                #[trigger] r.data@[i]@[j]).coefficients@ == spec_ntt(
                    self.data@[i]@[j].coefficients@,
                ),
            forall|i: int, j: int|
                0 <= i < self.data@.len() && 0 <= j < self.data@[0]@.len() ==> (
                #[trigger] r.data@[i]@[j]).is_ntt == true,
    {
        let nr = self.data.len();
        let nc = self.data[0].len();
        let mut data: Vec<Vec<Ring>> = Vec::new();
        let mut i: usize = 0;
        while i < nr
            invariant
                i <= nr,
                self.wf(),
                forall|r: int, c: int|
                    0 <= r < self.data@.len() && 0 <= c < self.data@[0]@.len() ==> (
                    #[trigger] self.data@[r]@[c]).is_ntt == false,
                nr == self.data@.len(),
                nc == self.data@[0]@.len(),
                data@.len() == i,
                forall|r: int| 0 <= r < i ==> (#[trigger] data@[r])@.len() == nc,
                forall|r: int, c: int| 0 <= r < i && 0 <= c < nc ==> (
                #[trigger] data@[r]@[c]).wf(),
                forall|r: int, c: int| 0 <= r < i && 0 <= c < nc ==> (
                #[trigger] data@[r]@[c]).is_ntt == true,
                forall|r: int, c: int|
                    0 <= r < i && 0 <= c < nc ==> (#[trigger] data@[r]@[c]).coefficients@
                        == spec_ntt(self.data@[r]@[c].coefficients@),
            decreases nr - i,
        {
            let mut row: Vec<Ring> = Vec::new();
            let mut j: usize = 0;
            while j < nc
                invariant
                    j <= nc,
                    i < nr,
                    self.wf(),
                    forall|r: int, c: int|
                        0 <= r < self.data@.len() && 0 <= c < self.data@[0]@.len() ==> (
                        #[trigger] self.data@[r]@[c]).is_ntt == false,
                    nr == self.data@.len(),
                    nc == self.data@[0]@.len(),
                    row@.len() == j,
                    forall|c: int| 0 <= c < j ==> (#[trigger] row@[c]).wf(),
                    forall|c: int| 0 <= c < j ==> (#[trigger] row@[c]).is_ntt == true,
                    forall|c: int|
                        0 <= c < j ==> (#[trigger] row@[c]).coefficients@ == spec_ntt(
                            self.data@[i as int]@[c].coefficients@,
                        ),
                decreases nc - j,
            {
                row.push(self.data[i][j].to_ntt());
                j += 1;
            }
            data.push(row);
            i += 1;
        }
        Matrix { data, transpose: self.transpose }
    }
}

} // verus!
