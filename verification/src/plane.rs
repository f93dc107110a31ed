//! A rectangular pixel buffer with explicit two-dimensional addressing.
//!
//! Samples are stored one per `u16` element whatever the configured bit
//! depth (8-bit content simply leaves the upper byte clear).  A buffer whose
//! rows are laid out bottom-up (the negative-stride case of C pixel
//! pointers) is modelled by the `flipped` flag: logical row `r` then lives
//! at physical row `h - 1 - r`.  All contracts speak of the logical view, a
//! sequence of rows from top to bottom, so callers never see the layout.

use vstd::prelude::*;

verus! {

pub struct Plane {
    pub data: Vec<u16>,
    pub w: usize,
    pub h: usize,
    pub stride: usize,
    pub flipped: bool,
}

impl Plane {
    /// The buffer is large enough for `h` rows of `stride` elements, of
    /// which the first `w` are visible.
    pub open spec fn wf(self) -> bool {
        &&& 1 <= self.w <= self.stride
        &&& self.h * self.stride <= self.data.len()
        &&& self.h * self.stride <= usize::MAX
    }

    pub open spec fn spec_w(self) -> nat {
        self.w as nat
    }

    pub open spec fn spec_h(self) -> nat {
        self.h as nat
    }

    pub open spec fn spec_flipped(self) -> bool {
        self.flipped
    }

    /// Physical row index of logical row `r`.
    pub open spec fn phys_row(self, r: int) -> int {
        if self.flipped {
            self.h - 1 - r
        } else {
            r
        }
    }

    /// The logical contents: `h` rows, each of `w` samples, top to bottom.
    pub open spec fn view(self) -> Seq<Seq<u16>> {
        Seq::new(
            self.h as nat,
            |r: int| Seq::new(self.w as nat, |c: int| self.data[self.phys_row(r) * self.stride + c]),
        )
    }

    proof fn lemma_index_bound(self, r: int, c: int)
        requires
            self.wf(),
            0 <= r < self.h,
            0 <= c < self.w,
        ensures
            0 <= self.phys_row(r) * self.stride + c < self.data.len(),
            self.phys_row(r) * self.stride + c <= usize::MAX,
    {
        let pr = self.phys_row(r);
        assert(0 <= pr < self.h);
        assert(pr * self.stride + c < (pr + 1) * self.stride) by (nonlinear_arith)
            requires
                c < self.stride,
                0 <= pr,
        ;
        assert((pr + 1) * self.stride <= self.h * self.stride) by (nonlinear_arith)
            requires
                pr + 1 <= self.h,
                0 <= self.stride,
        ;
        assert(0 <= pr * self.stride) by (nonlinear_arith)
            requires
                0 <= pr,
                0 <= self.stride,
        ;
    }

    proof fn lemma_index_injective(self, r1: int, c1: int, r2: int, c2: int)
        requires
            self.wf(),
            0 <= r1 < self.h,
            0 <= c1 < self.w,
            0 <= r2 < self.h,
            0 <= c2 < self.w,
            self.phys_row(r1) * self.stride + c1 == self.phys_row(r2) * self.stride + c2,
        ensures
            r1 == r2,
            c1 == c2,
    {
        let p1 = self.phys_row(r1);
        let p2 = self.phys_row(r2);
        assert(p1 == p2) by (nonlinear_arith)
            requires
                p1 * self.stride + c1 == p2 * self.stride + c2,
                0 <= c1 < self.stride,
                0 <= c2 < self.stride,
                0 <= p1,
                0 <= p2,
        ;
    }

    /// A fresh plane with every sample equal to `fill`.
    pub fn new(w: usize, h: usize, stride: usize, flipped: bool, fill: u16) -> (r: Plane)
        requires
            1 <= w <= stride,
            h * stride <= usize::MAX,
        ensures
            r.wf(),
            r.spec_w() == w,
            r.spec_h() == h,
            r.spec_flipped() == flipped,
            forall|rr: int, cc: int|
                0 <= rr < h && 0 <= cc < w ==> r.view()[rr][cc] == fill,
    {
        let n = h * stride;
        let mut data: Vec<u16> = Vec::new();
        let mut i: usize = 0;
        while i < n
            invariant
                data.len() == i,
                i <= n,
                forall|k: int| 0 <= k < i ==> data[k] == fill,
            decreases n - i,
        {
            data.push(fill);
            i += 1;
        }
        let p = Plane { data, w, h, stride, flipped };
        proof {
            assert forall|rr: int, cc: int| 0 <= rr < h && 0 <= cc < w implies p.view()[rr][cc]
                == fill by {
                p.lemma_index_bound(rr, cc);
            }
        }
        p
    }

    pub fn width(&self) -> (r: usize)
        ensures
            r == self.spec_w(),
    {
        self.w
    }

    pub fn height(&self) -> (r: usize)
        ensures
            r == self.spec_h(),
    {
        self.h
    }

    pub fn is_flipped(&self) -> (r: bool)
        ensures
            r == self.spec_flipped(),
    {
        self.flipped
    }

    /// Read the sample at logical row `r`, column `c`.
    pub fn get(&self, r: usize, c: usize) -> (v: u16)
        requires
            self.wf(),
            r < self.spec_h(),
            c < self.spec_w(),
        ensures
            v == self.view()[r as int][c as int],
    {
        proof {
            self.lemma_index_bound(r as int, c as int);
        }
        let pr = if self.flipped {
            self.h - 1 - r
        } else {
            r
        };
        self.data[pr * self.stride + c]
    }

    /// Overwrite the sample at logical row `r`, column `c`.
    pub fn set(&mut self, r: usize, c: usize, v: u16)
        requires
            old(self).wf(),
            r < old(self).spec_h(),
            c < old(self).spec_w(),
        ensures
            final (self).wf(),
            final (self).spec_w() == old(self).spec_w(),
            final (self).spec_h() == old(self).spec_h(),
            final (self).spec_flipped() == old(self).spec_flipped(),
            final (self).view() == old(self).view().update(
                r as int,
                old(self).view()[r as int].update(c as int, v),
            ),
    {
        proof {
            self.lemma_index_bound(r as int, c as int);
        }
        let pr = if self.flipped {
            self.h - 1 - r
        } else {
            r
        };
        let idx = pr * self.stride + c;
        self.data.set(idx, v);
        proof {
            let newv = self.view();
            let oldv = old(self).view();
            let goal = oldv.update(r as int, oldv[r as int].update(c as int, v));
            assert forall|rr: int| 0 <= rr < self.h implies newv[rr] == goal[rr] by {
                assert forall|cc: int| 0 <= cc < self.w implies newv[rr][cc] == goal[rr][cc] by {
                    old(self).lemma_index_bound(rr, cc);
                    if self.phys_row(rr) * self.stride + cc == idx {
                        old(self).lemma_index_injective(rr, cc, r as int, c as int);
                    }
                }
                assert(newv[rr] =~= goal[rr]);
            }
            assert(newv =~= goal);
        }
    }
}

} // verus!
