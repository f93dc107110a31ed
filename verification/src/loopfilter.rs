//! The deblocking loop filter engine.
//!
//! An edge is filtered in groups of four parallel lanes.  Each lane reads a
//! window of samples across the edge — `wd/2` on each side, at most 7 — and
//! rewrites part of it according to the deblocking rule: the edge is touched
//! only when the neighbour deltas pass the `E`/`I` decision, a wide weighted
//! average applies when the neighbourhood is flat, and a clipped difference
//! correction applies otherwise.  The whole transformation of a lane window
//! is pinned down by [`spec_loop_filter`].
//!
//! Window convention: for a half-width `b`, sample `p_i` sits at window
//! index `b - 1 - i` and `q_i` at `b + i`, so the window reads
//! `p_{b-1} .. p_0 q_0 .. q_{b-1}` in order.

use crate::lut::spec_edge_threshold;
use crate::lut::spec_limit;
use crate::lut::Av1FilterLUT;
use crate::plane::Plane;
use vstd::arithmetic::div_mod::lemma_div_is_ordered;
use vstd::arithmetic::div_mod::lemma_div_multiples_vanish_fancy;
use vstd::arithmetic::div_mod::lemma_hoist_over_denominator;
use vstd::arithmetic::power2::lemma2_to64;
use vstd::arithmetic::power2::lemma_pow2_strictly_increases;
use vstd::arithmetic::power2::pow2;
use vstd::prelude::*;

verus! {

/// Number of samples the filter may read or write on each side of the edge.
pub open spec fn spec_half(wd: int) -> int {
    if wd >= 16 {
        7
    } else {
        wd / 2
    }
}

pub open spec fn spec_abs(v: int) -> int {
    if v < 0 {
        -v
    } else {
        v
    }
}

pub open spec fn spec_min(a: int, b: int) -> int {
    if a < b {
        a
    } else {
        b
    }
}

/// Sample `p_i` of a lane window with half-width `b`.
pub open spec fn wp(win: Seq<u16>, b: int, i: int) -> int {
    win[b - 1 - i] as int
}

/// Sample `q_i` of a lane window with half-width `b`.
pub open spec fn wq(win: Seq<u16>, b: int, i: int) -> int {
    win[b + i] as int
}

/// The filter-or-skip decision: all neighbour deltas must stay under the
/// (bit-depth-scaled) thresholds `ii` and `ee`.
pub open spec fn spec_fm(win: Seq<u16>, wd: int, ee: int, ii: int) -> bool {
    let b = spec_half(wd);
    &&& spec_abs(wp(win, b, 1) - wp(win, b, 0)) <= ii
    &&& spec_abs(wq(win, b, 1) - wq(win, b, 0)) <= ii
    &&& spec_abs(wp(win, b, 0) - wq(win, b, 0)) * 2 + spec_abs(wp(win, b, 1) - wq(win, b, 1)) / 2
        <= ee
    &&& (wd > 4 ==> spec_abs(wp(win, b, 2) - wp(win, b, 1)) <= ii && spec_abs(
        wq(win, b, 2) - wq(win, b, 1),
    ) <= ii)
    &&& (wd > 6 ==> spec_abs(wp(win, b, 3) - wp(win, b, 2)) <= ii && spec_abs(
        wq(win, b, 3) - wq(win, b, 2),
    ) <= ii)
}

/// Inner flatness: every sample within three of the edge is within `ff` of
/// its side's edge sample.
pub open spec fn spec_flat8in(win: Seq<u16>, wd: int, ff: int) -> bool {
    let b = spec_half(wd);
    &&& spec_abs(wp(win, b, 2) - wp(win, b, 0)) <= ff
    &&& spec_abs(wp(win, b, 1) - wp(win, b, 0)) <= ff
    &&& spec_abs(wq(win, b, 1) - wq(win, b, 0)) <= ff
    &&& spec_abs(wq(win, b, 2) - wq(win, b, 0)) <= ff
    &&& (wd >= 8 ==> spec_abs(wp(win, b, 3) - wp(win, b, 0)) <= ff && spec_abs(
        wq(win, b, 3) - wq(win, b, 0),
    ) <= ff)
}

/// Outer flatness for the 16-wide filter.
pub open spec fn spec_flat8out(win: Seq<u16>, ff: int) -> bool {
    let b = 7int;
    &&& spec_abs(wp(win, b, 6) - wp(win, b, 0)) <= ff
    &&& spec_abs(wp(win, b, 5) - wp(win, b, 0)) <= ff
    &&& spec_abs(wp(win, b, 4) - wp(win, b, 0)) <= ff
    &&& spec_abs(wq(win, b, 4) - wq(win, b, 0)) <= ff
    &&& spec_abs(wq(win, b, 5) - wq(win, b, 0)) <= ff
    &&& spec_abs(wq(win, b, 6) - wq(win, b, 0)) <= ff
}

/// High edge variance: the immediate neighbour delta exceeds `hh` on either
/// side, selecting the one-pixel correction instead of the two-pixel one.
pub open spec fn spec_hev(win: Seq<u16>, b: int, hh: int) -> bool {
    spec_abs(wp(win, b, 1) - wp(win, b, 0)) > hh || spec_abs(wq(win, b, 1) - wq(win, b, 0)) > hh
}

/// Output sample of the 16-wide flat filter at offset `o` from the edge
/// (`o` in `-6 ..= 5`): a 13-tap weighted average, 16 weights in all,
/// rounded with `+8` and narrowed by `/ 16`.
pub open spec fn wide16_cell(win: Seq<u16>, o: int) -> int {
    let b = 7int;
    let p6 = wp(win, b, 6);
    let p5 = wp(win, b, 5);
    let p4 = wp(win, b, 4);
    let p3 = wp(win, b, 3);
    let p2 = wp(win, b, 2);
    let p1 = wp(win, b, 1);
    let p0 = wp(win, b, 0);
    let q0 = wq(win, b, 0);
    let q1 = wq(win, b, 1);
    let q2 = wq(win, b, 2);
    let q3 = wq(win, b, 3);
    let q4 = wq(win, b, 4);
    let q5 = wq(win, b, 5);
    let q6 = wq(win, b, 6);
    if o == -6 {
        (7 * p6 + 2 * p5 + 2 * p4 + p3 + p2 + p1 + p0 + q0 + 8) / 16
    } else if o == -5 {
        (5 * p6 + 2 * p5 + 2 * p4 + 2 * p3 + p2 + p1 + p0 + q0 + q1 + 8) / 16
    } else if o == -4 {
        (4 * p6 + p5 + 2 * p4 + 2 * p3 + 2 * p2 + p1 + p0 + q0 + q1 + q2 + 8) / 16
    } else if o == -3 {
        (3 * p6 + p5 + p4 + 2 * p3 + 2 * p2 + 2 * p1 + p0 + q0 + q1 + q2 + q3 + 8) / 16
    } else if o == -2 {
        (2 * p6 + p5 + p4 + p3 + 2 * p2 + 2 * p1 + 2 * p0 + q0 + q1 + q2 + q3 + q4 + 8) / 16
    } else if o == -1 {
        (p6 + p5 + p4 + p3 + p2 + 2 * p1 + 2 * p0 + 2 * q0 + q1 + q2 + q3 + q4 + q5 + 8) / 16
    } else if o == 0 {
        (p5 + p4 + p3 + p2 + p1 + 2 * p0 + 2 * q0 + 2 * q1 + q2 + q3 + q4 + q5 + q6 + 8) / 16
    } else if o == 1 {
        (p4 + p3 + p2 + p1 + p0 + 2 * q0 + 2 * q1 + 2 * q2 + q3 + q4 + q5 + 2 * q6 + 8) / 16
    } else if o == 2 {
        (p3 + p2 + p1 + p0 + q0 + 2 * q1 + 2 * q2 + 2 * q3 + q4 + q5 + 3 * q6 + 8) / 16
    } else if o == 3 {
        (p2 + p1 + p0 + q0 + q1 + 2 * q2 + 2 * q3 + 2 * q4 + q5 + 4 * q6 + 8) / 16
    } else if o == 4 {
        (p1 + p0 + q0 + q1 + q2 + 2 * q3 + 2 * q4 + 2 * q5 + 5 * q6 + 8) / 16
    } else {
        (p0 + q0 + q1 + q2 + q3 + 2 * q4 + 2 * q5 + 7 * q6 + 8) / 16
    }
}

/// Output sample of the 8-wide flat filter at offset `o` from the edge
/// (`o` in `-3 ..= 2`): a 7-tap average with 8 weights, rounded by `+4` and
/// narrowed by `/ 8`.
pub open spec fn wide8_cell(win: Seq<u16>, b: int, o: int) -> int {
    let p3 = wp(win, b, 3);
    let p2 = wp(win, b, 2);
    let p1 = wp(win, b, 1);
    let p0 = wp(win, b, 0);
    let q0 = wq(win, b, 0);
    let q1 = wq(win, b, 1);
    let q2 = wq(win, b, 2);
    let q3 = wq(win, b, 3);
    if o == -3 {
        (3 * p3 + 2 * p2 + p1 + p0 + q0 + 4) / 8
    } else if o == -2 {
        (2 * p3 + p2 + 2 * p1 + p0 + q0 + q1 + 4) / 8
    } else if o == -1 {
        (p3 + p2 + p1 + 2 * p0 + q0 + q1 + q2 + 4) / 8
    } else if o == 0 {
        (p2 + p1 + p0 + 2 * q0 + q1 + q2 + q3 + 4) / 8
    } else if o == 1 {
        (p1 + p0 + q0 + 2 * q1 + q2 + 2 * q3 + 4) / 8
    } else {
        (p0 + q0 + q1 + 2 * q2 + 3 * q3 + 4) / 8
    }
}

/// Output sample of the 6-wide flat filter at offset `o` from the edge
/// (`o` in `-2 ..= 1`).
pub open spec fn wide6_cell(win: Seq<u16>, b: int, o: int) -> int {
    let p2 = wp(win, b, 2);
    let p1 = wp(win, b, 1);
    let p0 = wp(win, b, 0);
    let q0 = wq(win, b, 0);
    let q1 = wq(win, b, 1);
    let q2 = wq(win, b, 2);
    if o == -2 {
        (3 * p2 + 2 * p1 + 2 * p0 + q0 + 4) / 8
    } else if o == -1 {
        (p2 + 2 * p1 + 2 * p0 + 2 * q0 + q1 + 4) / 8
    } else if o == 0 {
        (p1 + 2 * p0 + 2 * q0 + 2 * q1 + q2 + 4) / 8
    } else {
        (p0 + 2 * q0 + 2 * q1 + 3 * q2 + 4) / 8
    }
}

/// The non-flat branch: a clipped difference filter corrects `p0`/`q0`, and
/// when the edge variance is low also `p1`/`q1`.  `sh == 1 << (bitdepth-8)`.
pub open spec fn spec_narrow(win: Seq<u16>, b: int, hh: int, sh: int, bdmax: int) -> Seq<u16> {
    let p1 = wp(win, b, 1);
    let p0 = wp(win, b, 0);
    let q0 = wq(win, b, 0);
    let q1 = wq(win, b, 1);
    let mx = 128 * sh - 1;
    let mn = -128 * sh;
    if spec_hev(win, b, hh) {
        let f0 = crate::spec_iclip(p1 - q1, mn, mx);
        let f = crate::spec_iclip(3 * (q0 - p0) + f0, mn, mx);
        let f1 = spec_min(f + 4, mx) / 8;
        let f2 = spec_min(f + 3, mx) / 8;
        win.update(b - 1, crate::spec_iclip(p0 + f2, 0, bdmax) as u16).update(
            b,
            crate::spec_iclip(q0 - f1, 0, bdmax) as u16,
        )
    } else {
        let f = crate::spec_iclip(3 * (q0 - p0), mn, mx);
        let f1 = spec_min(f + 4, mx) / 8;
        let f2 = spec_min(f + 3, mx) / 8;
        let g = (f1 + 1) / 2;
        win.update(b - 1, crate::spec_iclip(p0 + f2, 0, bdmax) as u16).update(
            b,
            crate::spec_iclip(q0 - f1, 0, bdmax) as u16,
        ).update(b - 2, crate::spec_iclip(p1 + g, 0, bdmax) as u16).update(
            b + 1,
            crate::spec_iclip(q1 - g, 0, bdmax) as u16,
        )
    }
}

/// The complete transformation of one lane window.  `e8`, `i8`, `h8` are the
/// unscaled 8-bit-domain thresholds; `s` is `bitdepth - 8` and `bdmax` the
/// largest representable sample.
pub open spec fn spec_loop_filter(
    win: Seq<u16>,
    wd: int,
    e8: int,
    i8: int,
    h8: int,
    s: nat,
    bdmax: int,
) -> Seq<u16> {
    let b = spec_half(wd);
    let sh = pow2(s) as int;
    let ee = e8 * sh;
    let ii = i8 * sh;
    let hh = h8 * sh;
    let ff = sh;
    if !spec_fm(win, wd, ee, ii) {
        win
    } else if wd >= 16 && spec_flat8out(win, ff) && spec_flat8in(win, wd, ff) {
        Seq::new(
            win.len(),
            |k: int|
                if b - 6 <= k <= b + 5 {
                    wide16_cell(win, k - b) as u16
                } else {
                    win[k]
                },
        )
    } else if wd >= 8 && spec_flat8in(win, wd, ff) {
        Seq::new(
            win.len(),
            |k: int|
                if b - 3 <= k <= b + 2 {
                    wide8_cell(win, b, k - b) as u16
                } else {
                    win[k]
                },
        )
    } else if wd == 6 && spec_flat8in(win, wd, ff) {
        Seq::new(
            win.len(),
            |k: int|
                if b - 2 <= k <= b + 1 {
                    wide6_cell(win, b, k - b) as u16
                } else {
                    win[k]
                },
        )
    } else {
        spec_narrow(win, b, hh, sh, bdmax)
    }
}

/// `|a - b|` over two samples.
fn absdiff16(a: u16, c: u16) -> (r: u32)
    ensures
        r == spec_abs(a as int - c as int),
{
    if a >= c {
        (a - c) as u32
    } else {
        (c - a) as u32
    }
}

/// `2^s` for a small exponent.
pub(crate) fn one_shl(s: u8) -> (r: u32)
    requires
        s <= 8,
    ensures
        r == pow2(s as nat),
        1 <= r <= 256,
{
    proof {
        lemma2_to64();
    }
    let mut r: u32 = 1;
    let mut k: u8 = 0;
    while k < s
        invariant
            k <= s <= 8,
            r == pow2(k as nat),
        decreases s - k,
    {
        proof {
            if ((k + 1) as nat) < 8 {
                lemma_pow2_strictly_increases((k + 1) as nat, 8);
            }
            lemma2_to64();
            assert(pow2((k + 1) as nat) == 2 * pow2(k as nat)) by {
                vstd::arithmetic::power2::lemma_pow2_unfold((k + 1) as nat);
            }
        }
        r = r * 2;
        k = k + 1;
    }
    proof {
        if (k as nat) < 8 {
            lemma_pow2_strictly_increases(k as nat, 8);
        }
        lemma2_to64();
    }
    r
}

/// Rounded narrowing of a 16-weight sum.
fn avg16(sum: u32) -> (r: u16)
    requires
        sum <= 16 * 65535 + 8,
    ensures
        r == sum as int / 16,
{
    proof {
        lemma_div_is_ordered(sum as int, (16 * 65535 + 8) as int, 16);
    }
    (sum / 16) as u16
}

/// Rounded narrowing of an 8-weight sum.
fn avg8(sum: u32) -> (r: u16)
    requires
        sum <= 8 * 65535 + 4,
    ensures
        r == sum as int / 8,
{
    proof {
        lemma_div_is_ordered(sum as int, (8 * 65535 + 4) as int, 8);
    }
    (sum / 8) as u16
}

/// Floor division of a possibly negative correction term by `8`;
/// the arithmetic-shift semantics of the reference algorithm.
fn sar3(t: i32) -> (r: i32)
    requires
        -32768 <= t <= 65536,
    ensures
        r == t as int / 8,
{
    proof {
        lemma_hoist_over_denominator(t as int, 4096, 8);
    }
    let u: u32 = (t + 32768) as u32;
    (u / 8) as i32 - 4096
}

/// Floor division of a possibly negative correction term by `2`.
fn sar1(t: i32) -> (r: i32)
    requires
        -32768 <= t <= 65536,
    ensures
        r == t as int / 2,
{
    proof {
        lemma_hoist_over_denominator(t as int, 16384, 2);
    }
    let u: u32 = (t + 32768) as u32;
    (u / 2) as i32 - 16384
}

/// Apply the 16-wide flat filter to a 14-sample window.
#[verifier::rlimit(100)]
#[verifier::spinoff_prover]
fn apply_wide16(win: &mut Vec<u16>)
    requires
        old(win).len() == 14,
    ensures
        final (win)@ == Seq::new(
            14,
            |k: int|
                if 1 <= k <= 12 {
                    wide16_cell(old(win)@, k - 7) as u16
                } else {
                    old(win)@[k]
                },
        ),
{
    let ghost win0 = old(win)@;
    let p6 = win[0] as u32;
    let p5 = win[1] as u32;
    let p4 = win[2] as u32;
    let p3 = win[3] as u32;
    let p2 = win[4] as u32;
    let p1 = win[5] as u32;
    let p0 = win[6] as u32;
    let q0 = win[7] as u32;
    let q1 = win[8] as u32;
    let q2 = win[9] as u32;
    let q3 = win[10] as u32;
    let q4 = win[11] as u32;
    let q5 = win[12] as u32;
    let q6 = win[13] as u32;
    let v0 = avg16(7 * p6 + 2 * p5 + 2 * p4 + p3 + p2 + p1 + p0 + q0 + 8);
    let v1 = avg16(5 * p6 + 2 * p5 + 2 * p4 + 2 * p3 + p2 + p1 + p0 + q0 + q1 + 8);
    let v2 = avg16(4 * p6 + p5 + 2 * p4 + 2 * p3 + 2 * p2 + p1 + p0 + q0 + q1 + q2 + 8);
    let v3 = avg16(3 * p6 + p5 + p4 + 2 * p3 + 2 * p2 + 2 * p1 + p0 + q0 + q1 + q2 + q3 + 8);
    let v4 = avg16(2 * p6 + p5 + p4 + p3 + 2 * p2 + 2 * p1 + 2 * p0 + q0 + q1 + q2 + q3 + q4 + 8);
    let v5 = avg16(p6 + p5 + p4 + p3 + p2 + 2 * p1 + 2 * p0 + 2 * q0 + q1 + q2 + q3 + q4 + q5 + 8);
    let v6 = avg16(p5 + p4 + p3 + p2 + p1 + 2 * p0 + 2 * q0 + 2 * q1 + q2 + q3 + q4 + q5 + q6 + 8);
    let v7 = avg16(p4 + p3 + p2 + p1 + p0 + 2 * q0 + 2 * q1 + 2 * q2 + q3 + q4 + q5 + 2 * q6 + 8);
    let v8 = avg16(p3 + p2 + p1 + p0 + q0 + 2 * q1 + 2 * q2 + 2 * q3 + q4 + q5 + 3 * q6 + 8);
    let v9 = avg16(p2 + p1 + p0 + q0 + q1 + 2 * q2 + 2 * q3 + 2 * q4 + q5 + 4 * q6 + 8);
    let v10 = avg16(p1 + p0 + q0 + q1 + q2 + 2 * q3 + 2 * q4 + 2 * q5 + 5 * q6 + 8);
    let v11 = avg16(p0 + q0 + q1 + q2 + q3 + 2 * q4 + 2 * q5 + 7 * q6 + 8);
    win.set(1, v0);
    win.set(2, v1);
    win.set(3, v2);
    win.set(4, v3);
    win.set(5, v4);
    win.set(6, v5);
    win.set(7, v6);
    win.set(8, v7);
    win.set(9, v8);
    win.set(10, v9);
    win.set(11, v10);
    win.set(12, v11);
    proof {
        let target = Seq::new(
            14int as nat,
            |k: int|
                if 1 <= k <= 12 {
                    wide16_cell(win0, k - 7) as u16
                } else {
                    win0[k]
                },
        );
        assert forall|k: int| 0 <= k < 14 implies win@[k] == target[k] by {}
        assert(win@ =~= target);
    }
}

/// Apply the 8-wide flat filter around the edge of a window with
/// half-width `b` (4 for the 8-wide filter, 7 when the 16-wide filter
/// falls back to it).
#[verifier::rlimit(100)]
#[verifier::spinoff_prover]
fn apply_wide8(win: &mut Vec<u16>, b: usize)
    requires
        b == 4 || b == 7,
        old(win).len() == 2 * b,
    ensures
        final (win)@ == Seq::new(
            old(win)@.len(),
            |k: int|
                if b - 3 <= k <= b + 2 {
                    wide8_cell(old(win)@, b as int, k - b) as u16
                } else {
                    old(win)@[k]
                },
        ),
{
    let ghost win0 = old(win)@;
    let p3 = win[b - 4] as u32;
    let p2 = win[b - 3] as u32;
    let p1 = win[b - 2] as u32;
    let p0 = win[b - 1] as u32;
    let q0 = win[b] as u32;
    let q1 = win[b + 1] as u32;
    let q2 = win[b + 2] as u32;
    let q3 = win[b + 3] as u32;
    let v0 = avg8(3 * p3 + 2 * p2 + p1 + p0 + q0 + 4);
    let v1 = avg8(2 * p3 + p2 + 2 * p1 + p0 + q0 + q1 + 4);
    let v2 = avg8(p3 + p2 + p1 + 2 * p0 + q0 + q1 + q2 + 4);
    let v3 = avg8(p2 + p1 + p0 + 2 * q0 + q1 + q2 + q3 + 4);
    let v4 = avg8(p1 + p0 + q0 + 2 * q1 + q2 + 2 * q3 + 4);
    let v5 = avg8(p0 + q0 + q1 + 2 * q2 + 3 * q3 + 4);
    win.set(b - 3, v0);
    win.set(b - 2, v1);
    win.set(b - 1, v2);
    win.set(b, v3);
    win.set(b + 1, v4);
    win.set(b + 2, v5);
    proof {
        let target = Seq::new(
            win0.len(),
            |k: int|
                if b - 3 <= k <= b + 2 {
                    wide8_cell(win0, b as int, k - b) as u16
                } else {
                    win0[k]
                },
        );
        assert(v0 == wide8_cell(win0, b as int, -3) as u16);
        assert(v1 == wide8_cell(win0, b as int, -2) as u16);
        assert(v2 == wide8_cell(win0, b as int, -1) as u16);
        assert(v3 == wide8_cell(win0, b as int, 0) as u16);
        assert(v4 == wide8_cell(win0, b as int, 1) as u16);
        assert(v5 == wide8_cell(win0, b as int, 2) as u16);
        assert forall|k: int| 0 <= k < win@.len() implies win@[k] == target[k] by {
            if k < b - 3 || k > b + 2 {
                assert(win@[k] == win0[k]);
            }
        }
        assert(win@ =~= target);
    }
}

/// Apply the 6-wide flat filter around the edge of a 6-sample window.
fn apply_wide6(win: &mut Vec<u16>)
    requires
        old(win).len() == 6,
    ensures
        final (win)@ == Seq::new(
            6,
            |k: int|
                if 1 <= k <= 4 {
                    wide6_cell(old(win)@, 3, k - 3) as u16
                } else {
                    old(win)@[k]
                },
        ),
{
    let ghost win0 = old(win)@;
    let p2 = win[0] as u32;
    let p1 = win[1] as u32;
    let p0 = win[2] as u32;
    let q0 = win[3] as u32;
    let q1 = win[4] as u32;
    let q2 = win[5] as u32;
    let v0 = avg8(3 * p2 + 2 * p1 + 2 * p0 + q0 + 4);
    let v1 = avg8(p2 + 2 * p1 + 2 * p0 + 2 * q0 + q1 + 4);
    let v2 = avg8(p1 + 2 * p0 + 2 * q0 + 2 * q1 + q2 + 4);
    let v3 = avg8(p0 + 2 * q0 + 2 * q1 + 3 * q2 + 4);
    win.set(1, v0);
    win.set(2, v1);
    win.set(3, v2);
    win.set(4, v3);
    proof {
        let target = Seq::new(
            6int as nat,
            |k: int|
                if 1 <= k <= 4 {
                    wide6_cell(win0, 3, k - 3) as u16
                } else {
                    win0[k]
                },
        );
        assert forall|k: int| 0 <= k < 6 implies win@[k] == target[k] by {}
        assert(win@ =~= target);
    }
}

/// Apply the clipped-difference correction around the edge of a window with
/// half-width `b`.  `sh == 2^(bitdepth-8)` scales the clip range; `hh` is
/// the scaled high-variance threshold.
#[verifier::rlimit(60)]
fn apply_narrow(win: &mut Vec<u16>, b: usize, hh: u32, sh: u32, bdmax: u16)
    requires
        2 <= b <= 7,
        old(win).len() == 2 * b,
        1 <= sh <= 256,
        hh <= 65280,
    ensures
        final (win)@ == spec_narrow(old(win)@, b as int, hh as int, sh as int, bdmax as int),
{
    let ghost win0 = old(win)@;
    let p1 = win[b - 2];
    let p0 = win[b - 1];
    let q0 = win[b];
    let q1 = win[b + 1];
    let hev: bool = absdiff16(p1, p0) > hh || absdiff16(q1, q0) > hh;
    let mx: i32 = 128 * sh as i32 - 1;
    let mn: i32 = -(128 * sh as i32);
    let p1i: i32 = p1 as i32;
    let p0i: i32 = p0 as i32;
    let q0i: i32 = q0 as i32;
    let q1i: i32 = q1 as i32;
    proof {
        assert(hev == spec_hev(win0, b as int, hh as int));
    }
    if hev {
        let f0 = crate::iclip(p1i - q1i, mn, mx);
        let f = crate::iclip(3 * (q0i - p0i) + f0, mn, mx);
        let t1 = if f + 4 < mx {
            f + 4
        } else {
            mx
        };
        let t2 = if f + 3 < mx {
            f + 3
        } else {
            mx
        };
        let f1 = sar3(t1);
        let f2 = sar3(t2);
        let np0 = crate::iclip(p0i + f2, 0, bdmax as i32) as u16;
        let nq0 = crate::iclip(q0i - f1, 0, bdmax as i32) as u16;
        win.set(b - 1, np0);
        win.set(b, nq0);
    } else {
        let f = crate::iclip(3 * (q0i - p0i), mn, mx);
        let t1 = if f + 4 < mx {
            f + 4
        } else {
            mx
        };
        let t2 = if f + 3 < mx {
            f + 3
        } else {
            mx
        };
        let f1 = sar3(t1);
        let f2 = sar3(t2);
        let np0 = crate::iclip(p0i + f2, 0, bdmax as i32) as u16;
        let nq0 = crate::iclip(q0i - f1, 0, bdmax as i32) as u16;
        win.set(b - 1, np0);
        win.set(b, nq0);
        let g = sar1(f1 + 1);
        let np1 = crate::iclip(p1i + g, 0, bdmax as i32) as u16;
        let nq1 = crate::iclip(q1i - g, 0, bdmax as i32) as u16;
        win.set(b - 2, np1);
        win.set(b + 1, nq1);
    }
}

/// Filter one lane window in place.
///
/// The window holds `2 * spec_half(wd)` samples centred on the edge; on
/// return it equals [`spec_loop_filter`] of the old window.
#[verifier::rlimit(80)]
pub fn loop_filter_lane(win: &mut Vec<u16>, wd: usize, e8: u8, i8v: u8, h8: u8, s: u8, bdmax: u16)
    requires
        wd == 4 || wd == 6 || wd == 8 || wd == 16,
        old(win).len() == 2 * spec_half(wd as int),
        s <= 8,
    ensures
        final (win).len() == old(win).len(),
        final (win)@ == spec_loop_filter(
            old(win)@,
            wd as int,
            e8 as int,
            i8v as int,
            h8 as int,
            s as nat,
            bdmax as int,
        ),
{
    let ghost win0 = old(win)@;
    let b: usize = if wd >= 16 {
        7
    } else {
        wd / 2
    };
    let sh: u32 = one_shl(s);
    proof {
        assert((e8 as u32) * sh <= 65280 && (i8v as u32) * sh <= 65280 && (h8 as u32) * sh <= 65280)
            by (nonlinear_arith)
            requires
                e8 as u32 <= 255,
                i8v as u32 <= 255,
                h8 as u32 <= 255,
                1 <= sh <= 256,
        ;
    }
    let ee: u32 = (e8 as u32) * sh;
    let ii: u32 = (i8v as u32) * sh;
    let hh: u32 = (h8 as u32) * sh;
    let ff: u32 = sh;

    let p1: u16 = win[b - 2];
    let p0: u16 = win[b - 1];
    let q0: u16 = win[b];
    let q1: u16 = win[b + 1];

    let mut fm: bool = absdiff16(p1, p0) <= ii && absdiff16(q1, q0) <= ii && absdiff16(p0, q0) * 2
        + absdiff16(p1, q1) / 2 <= ee;

    let mut p2: u16 = 0;
    let mut q2: u16 = 0;
    let mut p3: u16 = 0;
    let mut q3: u16 = 0;
    if wd > 4 {
        p2 = win[b - 3];
        q2 = win[b + 2];
        fm = fm && absdiff16(p2, p1) <= ii && absdiff16(q2, q1) <= ii;
        if wd > 6 {
            p3 = win[b - 4];
            q3 = win[b + 3];
            fm = fm && absdiff16(p3, p2) <= ii && absdiff16(q3, q2) <= ii;
        }
    }
    proof {
        assert(fm == spec_fm(win0, wd as int, ee as int, ii as int));
    }
    if !fm {
        return ;
    }
    let mut flat8out: bool = false;
    let mut flat8in: bool = false;
    if wd >= 16 {
        let p6 = win[0];
        let p5 = win[1];
        let p4 = win[2];
        let q4 = win[11];
        let q5 = win[12];
        let q6 = win[13];
        flat8out = absdiff16(p6, p0) <= ff && absdiff16(p5, p0) <= ff && absdiff16(p4, p0) <= ff
            && absdiff16(q4, q0) <= ff && absdiff16(q5, q0) <= ff && absdiff16(q6, q0) <= ff;
        proof {
            assert(flat8out == spec_flat8out(win0, ff as int));
        }
    }
    if wd >= 6 {
        flat8in = absdiff16(p2, p0) <= ff && absdiff16(p1, p0) <= ff && absdiff16(q1, q0) <= ff
            && absdiff16(q2, q0) <= ff;
    }
    if wd >= 8 {
        flat8in = flat8in && absdiff16(p3, p0) <= ff && absdiff16(q3, q0) <= ff;
    }
    proof {
        if wd >= 6 {
            assert(flat8in == spec_flat8in(win0, wd as int, ff as int));
        }
    }
    if wd >= 16 && flat8out && flat8in {
        apply_wide16(win);
        proof {
            assert(win@ =~= spec_loop_filter(
                win0,
                wd as int,
                e8 as int,
                i8v as int,
                h8 as int,
                s as nat,
                bdmax as int,
            ));
        }
        return ;
    }
    if wd >= 8 && flat8in {
        apply_wide8(win, b);
        proof {
            assert(win@ =~= spec_loop_filter(
                win0,
                wd as int,
                e8 as int,
                i8v as int,
                h8 as int,
                s as nat,
                bdmax as int,
            ));
        }
        return ;
    }
    if wd == 6 && flat8in {
        apply_wide6(win);
        proof {
            assert(win@ =~= spec_loop_filter(
                win0,
                wd as int,
                e8 as int,
                i8v as int,
                h8 as int,
                s as nat,
                bdmax as int,
            ));
        }
        return ;
    }
    apply_narrow(win, b, hh, sh, bdmax);
    proof {
        assert(win@ == spec_loop_filter(
            win0,
            wd as int,
            e8 as int,
            i8v as int,
            h8 as int,
            s as nat,
            bdmax as int,
        ));
    }
}

/// A row with the segment starting at `at` replaced by `seg`.
pub open spec fn splice_row(row: Seq<u16>, at: int, seg: Seq<u16>) -> Seq<u16> {
    Seq::new(
        row.len(),
        |c: int|
            if at <= c < at + seg.len() {
                seg[c - at]
            } else {
                row[c]
            },
    )
}

/// The lane window read horizontally across a vertical edge at column `x0`
/// of row `r`.
pub open spec fn win_h(pv: Seq<Seq<u16>>, r: int, x0: int, wd: int) -> Seq<u16> {
    let b = spec_half(wd);
    Seq::new((2 * b) as nat, |k: int| pv[r][x0 - b + k])
}

/// The lane window read vertically across a horizontal edge at row `y0`
/// of column `c`.
pub open spec fn win_v(pv: Seq<Seq<u16>>, y0: int, c: int, wd: int) -> Seq<u16> {
    let b = spec_half(wd);
    Seq::new((2 * b) as nat, |k: int| pv[y0 - b + k][c])
}

/// A plane after filtering the four lanes of a vertical edge at column `x0`,
/// rows `r0 .. r0+4`.
pub open spec fn spec_lf_edge_h(
    pv: Seq<Seq<u16>>,
    r0: int,
    x0: int,
    wd: int,
    e8: int,
    i8: int,
    h8: int,
    s: nat,
    bdmax: int,
) -> Seq<Seq<u16>> {
    let b = spec_half(wd);
    Seq::new(
        pv.len(),
        |r: int|
            if r0 <= r < r0 + 4 {
                splice_row(
                    pv[r],
                    x0 - b,
                    spec_loop_filter(win_h(pv, r, x0, wd), wd, e8, i8, h8, s, bdmax),
                )
            } else {
                pv[r]
            },
    )
}

/// A plane after filtering the four lanes of a horizontal edge at row `y0`,
/// columns `c0 .. c0+4`.
pub open spec fn spec_lf_edge_v(
    pv: Seq<Seq<u16>>,
    y0: int,
    c0: int,
    wd: int,
    e8: int,
    i8: int,
    h8: int,
    s: nat,
    bdmax: int,
) -> Seq<Seq<u16>> {
    let b = spec_half(wd);
    Seq::new(
        pv.len(),
        |r: int|
            if y0 - b <= r < y0 + b {
                Seq::new(
                    pv[r].len(),
                    |c: int|
                        if c0 <= c < c0 + 4 {
                            spec_loop_filter(win_v(pv, y0, c, wd), wd, e8, i8, h8, s, bdmax)[r - (y0
                                - b)]
                        } else {
                            pv[r][c]
                        },
                )
            } else {
                pv[r]
            },
    )
}

/// Filter one horizontal lane: row `r`, window centred on column `x0`.
fn lf_lane_h(p: &mut Plane, r: usize, x0: usize, wd: usize, e8: u8, i8v: u8, h8: u8, s: u8, bdmax: u16)
    requires
        old(p).wf(),
        wd == 4 || wd == 6 || wd == 8 || wd == 16,
        r < old(p).spec_h(),
        spec_half(wd as int) <= x0,
        x0 + spec_half(wd as int) <= old(p).spec_w(),
        s <= 8,
    ensures
        final (p).wf(),
        final (p).spec_w() == old(p).spec_w(),
        final (p).spec_h() == old(p).spec_h(),
        final (p).spec_flipped() == old(p).spec_flipped(),
        final (p).view() == old(p).view().update(
            r as int,
            splice_row(
                old(p).view()[r as int],
                x0 - spec_half(wd as int),
                spec_loop_filter(
                    win_h(old(p).view(), r as int, x0 as int, wd as int),
                    wd as int,
                    e8 as int,
                    i8v as int,
                    h8 as int,
                    s as nat,
                    bdmax as int,
                ),
            ),
        ),
{
    let ghost pv = old(p).view();
    let b: usize = if wd >= 16 {
        7
    } else {
        wd / 2
    };
    let base = x0 - b;
    let mut win: Vec<u16> = Vec::new();
    let mut k: usize = 0;
    while k < 2 * b
        invariant
            p == old(p),
            pv == p.view(),
            p.wf(),
            b == spec_half(wd as int),
            r < p.spec_h(),
            base == x0 - b,
            x0 + b <= p.spec_w(),
            win.len() == k,
            k <= 2 * b,
            forall|t: int| 0 <= t < k ==> win@[t] == pv[r as int][base + t],
        decreases 2 * b - k,
    {
        win.push(p.get(r, base + k));
        k += 1;
    }
    proof {
        assert(win@ =~= win_h(pv, r as int, x0 as int, wd as int));
    }
    loop_filter_lane(&mut win, wd, e8, i8v, h8, s, bdmax);
    let ghost out = spec_loop_filter(
        win_h(pv, r as int, x0 as int, wd as int),
        wd as int,
        e8 as int,
        i8v as int,
        h8 as int,
        s as nat,
        bdmax as int,
    );
    proof {
        assert(Seq::new(
            pv[r as int].len(),
            |c: int|
                if base <= c < base + 0 {
                    out[c - base]
                } else {
                    pv[r as int][c]
                },
        ) =~= pv[r as int]);
        assert(pv.update(r as int, pv[r as int]) =~= pv);
    }
    let mut k: usize = 0;
    while k < 2 * b
        invariant
            pv == old(p).view(),
            old(p).wf(),
            p.wf(),
            p.spec_w() == old(p).spec_w(),
            p.spec_h() == old(p).spec_h(),
            p.spec_flipped() == old(p).spec_flipped(),
            b == spec_half(wd as int),
            r < p.spec_h(),
            base == x0 - b,
            x0 + b <= p.spec_w(),
            win.len() == 2 * b,
            win@ == out,
            out.len() == 2 * b,
            k <= 2 * b,
            p.view() == pv.update(
                r as int,
                Seq::new(
                    pv[r as int].len(),
                    |c: int|
                        if base <= c < base + k {
                            out[c - base]
                        } else {
                            pv[r as int][c]
                        },
                ),
            ),
        decreases 2 * b - k,
    {
        let ghost prev = p.view();
        p.set(r, base + k, win[k]);
        proof {
            let cur = Seq::new(
                pv[r as int].len(),
                |c: int|
                    if base <= c < base + k + 1 {
                        out[c - base]
                    } else {
                        pv[r as int][c]
                    },
            );
            assert(p.view()[r as int] =~= cur);
            assert(p.view() =~= pv.update(r as int, cur));
        }
        k += 1;
    }
    proof {
        let target = splice_row(pv[r as int], x0 - spec_half(wd as int), out);
        assert(p.view()[r as int] =~= target);
        assert(p.view() =~= pv.update(r as int, target));
    }
}

/// Filter one vertical lane: column `c`, window centred on row `y0`.
fn lf_lane_v(p: &mut Plane, y0: usize, c: usize, wd: usize, e8: u8, i8v: u8, h8: u8, s: u8, bdmax: u16)
    requires
        old(p).wf(),
        wd == 4 || wd == 6 || wd == 8 || wd == 16,
        c < old(p).spec_w(),
        spec_half(wd as int) <= y0,
        y0 + spec_half(wd as int) <= old(p).spec_h(),
        s <= 8,
    ensures
        final (p).wf(),
        final (p).spec_w() == old(p).spec_w(),
        final (p).spec_h() == old(p).spec_h(),
        final (p).spec_flipped() == old(p).spec_flipped(),
        final (p).view() == Seq::new(
            old(p).view().len(),
            |r: int|
                if y0 - spec_half(wd as int) <= r < y0 + spec_half(wd as int) {
                    old(p).view()[r].update(
                        c as int,
                        spec_loop_filter(
                            win_v(old(p).view(), y0 as int, c as int, wd as int),
                            wd as int,
                            e8 as int,
                            i8v as int,
                            h8 as int,
                            s as nat,
                            bdmax as int,
                        )[r - (y0 - spec_half(wd as int))],
                    )
                } else {
                    old(p).view()[r]
                },
        ),
{
    let ghost pv = old(p).view();
    let b: usize = if wd >= 16 {
        7
    } else {
        wd / 2
    };
    let base = y0 - b;
    let mut win: Vec<u16> = Vec::new();
    let mut k: usize = 0;
    while k < 2 * b
        invariant
            p == old(p),
            pv == p.view(),
            p.wf(),
            b == spec_half(wd as int),
            c < p.spec_w(),
            base == y0 - b,
            y0 + b <= p.spec_h(),
            win.len() == k,
            k <= 2 * b,
            forall|t: int| 0 <= t < k ==> win@[t] == pv[base + t][c as int],
        decreases 2 * b - k,
    {
        win.push(p.get(base + k, c));
        k += 1;
    }
    proof {
        assert(win@ =~= win_v(pv, y0 as int, c as int, wd as int));
    }
    loop_filter_lane(&mut win, wd, e8, i8v, h8, s, bdmax);
    let ghost out = spec_loop_filter(
        win_v(pv, y0 as int, c as int, wd as int),
        wd as int,
        e8 as int,
        i8v as int,
        h8 as int,
        s as nat,
        bdmax as int,
    );
    let mut k: usize = 0;
    while k < 2 * b
        invariant
            pv == old(p).view(),
            old(p).wf(),
            p.wf(),
            p.spec_w() == old(p).spec_w(),
            p.spec_h() == old(p).spec_h(),
            p.spec_flipped() == old(p).spec_flipped(),
            b == spec_half(wd as int),
            c < p.spec_w(),
            base == y0 - b,
            y0 + b <= p.spec_h(),
            win.len() == 2 * b,
            win@ == out,
            out.len() == 2 * b,
            k <= 2 * b,
            p.view() == Seq::new(
                pv.len(),
                |r: int|
                    if base <= r < base + k {
                        pv[r].update(c as int, out[r - base])
                    } else {
                        pv[r]
                    },
            ),
        decreases 2 * b - k,
    {
        p.set(base + k, c, win[k]);
        proof {
            let cur = Seq::new(
                pv.len(),
                |r: int|
                    if base <= r < base + k + 1 {
                        pv[r].update(c as int, out[r - base])
                    } else {
                        pv[r]
                    },
            );
            assert forall|r: int| 0 <= r < pv.len() implies p.view()[r] == cur[r] by {}
            assert(p.view() =~= cur);
        }
        k += 1;
    }
    proof {
        let target = Seq::new(
            pv.len(),
            |r: int|
                if y0 - spec_half(wd as int) <= r < y0 + spec_half(wd as int) {
                    pv[r].update(c as int, out[r - (y0 - spec_half(wd as int))])
                } else {
                    pv[r]
                },
        );
        assert(p.view() =~= target);
    }
}

/// Filter the four lanes of a vertical edge at column `x0`, rows
/// `r0 .. r0+4`.
pub fn loop_filter_edge_h(
    p: &mut Plane,
    r0: usize,
    x0: usize,
    wd: usize,
    e8: u8,
    i8v: u8,
    h8: u8,
    s: u8,
    bdmax: u16,
)
    requires
        old(p).wf(),
        wd == 4 || wd == 6 || wd == 8 || wd == 16,
        r0 + 4 <= old(p).spec_h(),
        spec_half(wd as int) <= x0,
        x0 + spec_half(wd as int) <= old(p).spec_w(),
        s <= 8,
    ensures
        final (p).wf(),
        final (p).spec_w() == old(p).spec_w(),
        final (p).spec_h() == old(p).spec_h(),
        final (p).spec_flipped() == old(p).spec_flipped(),
        final (p).view() == spec_lf_edge_h(
            old(p).view(),
            r0 as int,
            x0 as int,
            wd as int,
            e8 as int,
            i8v as int,
            h8 as int,
            s as nat,
            bdmax as int,
        ),
{
    let ghost pv = old(p).view();
    let mut j: usize = 0;
    while j < 4
        invariant
            pv == old(p).view(),
            old(p).wf(),
            p.wf(),
            p.spec_w() == old(p).spec_w(),
            p.spec_h() == old(p).spec_h(),
            p.spec_flipped() == old(p).spec_flipped(),
            wd == 4 || wd == 6 || wd == 8 || wd == 16,
            r0 + 4 <= p.spec_h(),
            spec_half(wd as int) <= x0,
            x0 + spec_half(wd as int) <= p.spec_w(),
            s <= 8,
            j <= 4,
            p.view() == Seq::new(
                pv.len(),
                |r: int|
                    if r0 <= r < r0 + j {
                        splice_row(
                            pv[r],
                            x0 - spec_half(wd as int),
                            spec_loop_filter(
                                win_h(pv, r, x0 as int, wd as int),
                                wd as int,
                                e8 as int,
                                i8v as int,
                                h8 as int,
                                s as nat,
                                bdmax as int,
                            ),
                        )
                    } else {
                        pv[r]
                    },
            ),
        decreases 4 - j,
    {
        let ghost before = p.view();
        proof {
            assert(before[(r0 + j) as int] == pv[(r0 + j) as int]);
            assert(win_h(before, (r0 + j) as int, x0 as int, wd as int) =~= win_h(
                pv,
                (r0 + j) as int,
                x0 as int,
                wd as int,
            ));
        }
        lf_lane_h(p, r0 + j, x0, wd, e8, i8v, h8, s, bdmax);
        proof {
            let cur = Seq::new(
                pv.len(),
                |r: int|
                    if r0 <= r < r0 + j + 1 {
                        splice_row(
                            pv[r],
                            x0 - spec_half(wd as int),
                            spec_loop_filter(
                                win_h(pv, r, x0 as int, wd as int),
                                wd as int,
                                e8 as int,
                                i8v as int,
                                h8 as int,
                                s as nat,
                                bdmax as int,
                            ),
                        )
                    } else {
                        pv[r]
                    },
            );
            assert forall|r: int| 0 <= r < pv.len() implies p.view()[r] == cur[r] by {}
            assert(p.view() =~= cur);
        }
        j += 1;
    }
    proof {
        assert(p.view() =~= spec_lf_edge_h(
            pv,
            r0 as int,
            x0 as int,
            wd as int,
            e8 as int,
            i8v as int,
            h8 as int,
            s as nat,
            bdmax as int,
        ));
    }
}

/// Filter the four lanes of a horizontal edge at row `y0`, columns
/// `c0 .. c0+4`.
#[verifier::rlimit(80)]
pub fn loop_filter_edge_v(
    p: &mut Plane,
    y0: usize,
    c0: usize,
    wd: usize,
    e8: u8,
    i8v: u8,
    h8: u8,
    s: u8,
    bdmax: u16,
)
    requires
        old(p).wf(),
        wd == 4 || wd == 6 || wd == 8 || wd == 16,
        c0 + 4 <= old(p).spec_w(),
        spec_half(wd as int) <= y0,
        y0 + spec_half(wd as int) <= old(p).spec_h(),
        s <= 8,
    ensures
        final (p).wf(),
        final (p).spec_w() == old(p).spec_w(),
        final (p).spec_h() == old(p).spec_h(),
        final (p).spec_flipped() == old(p).spec_flipped(),
        final (p).view() == spec_lf_edge_v(
            old(p).view(),
            y0 as int,
            c0 as int,
            wd as int,
            e8 as int,
            i8v as int,
            h8 as int,
            s as nat,
            bdmax as int,
        ),
{
    let ghost pv = old(p).view();
    let ghost b = spec_half(wd as int);
    proof {
        let init = Seq::new(
            pv.len(),
            |r: int|
                if y0 - b <= r < y0 + b {
                    Seq::new(
                        pv[r].len(),
                        |c: int|
                            if c0 <= c < c0 + 0 {
                                spec_loop_filter(
                                    win_v(pv, y0 as int, c, wd as int),
                                    wd as int,
                                    e8 as int,
                                    i8v as int,
                                    h8 as int,
                                    s as nat,
                                    bdmax as int,
                                )[r - (y0 - b)]
                            } else {
                                pv[r][c]
                            },
                    )
                } else {
                    pv[r]
                },
        );
        assert forall|r: int| 0 <= r < pv.len() implies init[r] =~= pv[r] by {
            if y0 - b <= r < y0 + b {
                assert forall|c: int| 0 <= c < pv[r].len() implies init[r][c] == pv[r][c] by {}
            }
        }
        assert(init =~= pv);
    }
    let mut j: usize = 0;
    while j < 4
        invariant
            pv == old(p).view(),
            old(p).wf(),
            p.wf(),
            p.spec_w() == old(p).spec_w(),
            p.spec_h() == old(p).spec_h(),
            p.spec_flipped() == old(p).spec_flipped(),
            wd == 4 || wd == 6 || wd == 8 || wd == 16,
            c0 + 4 <= p.spec_w(),
            b == spec_half(wd as int),
            b <= y0,
            y0 + b <= p.spec_h(),
            s <= 8,
            j <= 4,
            p.view() == Seq::new(
                pv.len(),
                |r: int|
                    if y0 - b <= r < y0 + b {
                        Seq::new(
                            pv[r].len(),
                            |c: int|
                                if c0 <= c < c0 + j {
                                    spec_loop_filter(
                                        win_v(pv, y0 as int, c, wd as int),
                                        wd as int,
                                        e8 as int,
                                        i8v as int,
                                        h8 as int,
                                        s as nat,
                                        bdmax as int,
                                    )[r - (y0 - b)]
                                } else {
                                    pv[r][c]
                                },
                        )
                    } else {
                        pv[r]
                    },
            ),
        decreases 4 - j,
    {
        let ghost before = p.view();
        proof {
            assert forall|t: int| 0 <= t < 2 * b implies #[trigger] before[y0 - b + t][(c0
                + j) as int] == pv[y0 - b + t][(c0 + j) as int] by {}
            assert(win_v(before, y0 as int, (c0 + j) as int, wd as int) =~= win_v(
                pv,
                y0 as int,
                (c0 + j) as int,
                wd as int,
            ));
        }
        lf_lane_v(p, y0, c0 + j, wd, e8, i8v, h8, s, bdmax);
        proof {
            let cur = Seq::new(
                pv.len(),
                |r: int|
                    if y0 - b <= r < y0 + b {
                        Seq::new(
                            pv[r].len(),
                            |c: int|
                                if c0 <= c < c0 + j + 1 {
                                    spec_loop_filter(
                                        win_v(pv, y0 as int, c, wd as int),
                                        wd as int,
                                        e8 as int,
                                        i8v as int,
                                        h8 as int,
                                        s as nat,
                                        bdmax as int,
                                    )[r - (y0 - b)]
                                } else {
                                    pv[r][c]
                                },
                        )
                    } else {
                        pv[r]
                    },
            );
            assert forall|r: int| 0 <= r < pv.len() implies p.view()[r] =~= cur[r] by {
                if y0 - b <= r < y0 + b {
                    assert forall|c: int| 0 <= c < pv[r].len() implies p.view()[r][c] == cur[r][c]
                        by {}
                }
            }
            assert(p.view() =~= cur);
        }
        j += 1;
    }
    proof {
        let target = spec_lf_edge_v(
            pv,
            y0 as int,
            c0 as int,
            wd as int,
            e8 as int,
            i8v as int,
            h8 as int,
            s as nat,
            bdmax as int,
        );
        assert forall|r: int| 0 <= r < pv.len() implies p.view()[r] =~= target[r] by {
            if y0 - b <= r < y0 + b {
                assert forall|c: int| 0 <= c < pv[r].len() implies p.view()[r][c] == target[r][c]
                    by {}
            }
        }
        assert(p.view() =~= target);
    }
}


/// Bit `k` of a 32-bit edge mask.
pub open spec fn bit32(v: u32, k: int) -> bool {
    v & (1u32 << (k as u32)) != 0
}

/// The combined mask a walker iterates over: luma masks have three width
/// tiers, chroma masks two.
pub open spec fn spec_vm(is_uv: bool, vm0: u32, vm1: u32, vm2: u32) -> u32 {
    if is_uv {
        vm0 | vm1
    } else {
        vm0 | vm1 | vm2
    }
}

/// The filter level for an edge: the edge's own level, or the neighbouring
/// level `fb` entries back when the edge's own level is zero.
pub open spec fn spec_level(lvlv: Seq<u8>, idx: int, fb: int) -> int {
    if lvlv[idx] != 0 {
        lvlv[idx] as int
    } else {
        lvlv[idx - fb] as int
    }
}

/// Luma filter width at mask position `k`: the highest set tier wins.
pub open spec fn spec_wd_y(vm1: u32, vm2: u32, k: int) -> int {
    if bit32(vm2, k) {
        16
    } else if bit32(vm1, k) {
        8
    } else {
        4
    }
}

/// Chroma filter width at mask position `k`.
pub open spec fn spec_wd_uv(vm1: u32, k: int) -> int {
    if bit32(vm1, k) {
        6
    } else {
        4
    }
}

/// What one mask position does to the plane: nothing when the bit is clear
/// or the looked-up level is zero, otherwise one four-lane edge filter with
/// the level's thresholds and `H = level >> 4`.
pub open spec fn spec_lf_sb_step(
    pv: Seq<Seq<u16>>,
    k: int,
    is_v: bool,
    is_uv: bool,
    x0: int,
    y0: int,
    lvlv: Seq<u8>,
    lbase: int,
    b4s: int,
    lut: Av1FilterLUT,
    s: nat,
    bdmax: int,
    vm0: u32,
    vm1: u32,
    vm2: u32,
) -> Seq<Seq<u16>> {
    let vm = spec_vm(is_uv, vm0, vm1, vm2);
    if !bit32(vm, k) {
        pv
    } else {
        let li = if is_v {
            lbase + k
        } else {
            lbase + k * b4s
        };
        let fb = if is_v {
            b4s
        } else {
            1
        };
        let l = spec_level(lvlv, li, fb);
        if l == 0 {
            pv
        } else {
            let wd = if is_uv {
                spec_wd_uv(vm1, k)
            } else {
                spec_wd_y(vm1, vm2, k)
            };
            let e8 = lut.e@[l] as int;
            let i8 = lut.i@[l] as int;
            let h8 = l / 16;
            if is_v {
                spec_lf_edge_v(pv, y0, x0 + 4 * k, wd, e8, i8, h8, s, bdmax)
            } else {
                spec_lf_edge_h(pv, y0 + 4 * k, x0, wd, e8, i8, h8, s, bdmax)
            }
        }
    }
}

/// The first `n` mask positions applied in order.
pub open spec fn spec_lf_sb_sweep(
    pv: Seq<Seq<u16>>,
    n: nat,
    is_v: bool,
    is_uv: bool,
    x0: int,
    y0: int,
    lvlv: Seq<u8>,
    lbase: int,
    b4s: int,
    lut: Av1FilterLUT,
    s: nat,
    bdmax: int,
    vm0: u32,
    vm1: u32,
    vm2: u32,
) -> Seq<Seq<u16>>
    decreases n,
{
    if n == 0 {
        pv
    } else {
        spec_lf_sb_step(
            spec_lf_sb_sweep(
                pv,
                (n - 1) as nat,
                is_v,
                is_uv,
                x0,
                y0,
                lvlv,
                lbase,
                b4s,
                lut,
                s,
                bdmax,
                vm0,
                vm1,
                vm2,
            ),
            n - 1,
            is_v,
            is_uv,
            x0,
            y0,
            lvlv,
            lbase,
            b4s,
            lut,
            s,
            bdmax,
            vm0,
            vm1,
            vm2,
        )
    }
}

/// Positions whose mask bit is clear leave the plane alone, so a sweep may
/// stop at the highest set bit.
proof fn lemma_sweep_stable(
    pv: Seq<Seq<u16>>,
    k: nat,
    n: nat,
    is_v: bool,
    is_uv: bool,
    x0: int,
    y0: int,
    lvlv: Seq<u8>,
    lbase: int,
    b4s: int,
    lut: Av1FilterLUT,
    s: nat,
    bdmax: int,
    vm0: u32,
    vm1: u32,
    vm2: u32,
)
    requires
        k <= n,
        forall|j: int| k <= j < n ==> !bit32(spec_vm(is_uv, vm0, vm1, vm2), j),
    ensures
        spec_lf_sb_sweep(pv, n, is_v, is_uv, x0, y0, lvlv, lbase, b4s, lut, s, bdmax, vm0, vm1, vm2)
            == spec_lf_sb_sweep(
            pv,
            k,
            is_v,
            is_uv,
            x0,
            y0,
            lvlv,
            lbase,
            b4s,
            lut,
            s,
            bdmax,
            vm0,
            vm1,
            vm2,
        ),
    decreases n - k,
{
    if n > k {
        lemma_sweep_stable(
            pv,
            k,
            (n - 1) as nat,
            is_v,
            is_uv,
            x0,
            y0,
            lvlv,
            lbase,
            b4s,
            lut,
            s,
            bdmax,
            vm0,
            vm1,
            vm2,
        );
    }
}

/// The bounds one processed mask position needs: a readable level pair and
/// an edge whose window lies inside the plane.
pub open spec fn spec_lf_sb_bounds(
    w: nat,
    h: nat,
    k: int,
    is_v: bool,
    is_uv: bool,
    x0: int,
    y0: int,
    lvlv: Seq<u8>,
    lbase: int,
    b4s: int,
    vm1: u32,
    vm2: u32,
) -> bool {
    let li = if is_v {
        lbase + k
    } else {
        lbase + k * b4s
    };
    let fb = if is_v {
        b4s
    } else {
        1
    };
    let wd = if is_uv {
        spec_wd_uv(vm1, k)
    } else {
        spec_wd_y(vm1, vm2, k)
    };
    let b = spec_half(wd);
    &&& 1 <= fb <= li < lvlv.len()
    &&& lvlv[li] < 64
    &&& lvlv[li - fb] < 64
    &&& if is_v {
        x0 + 4 * k + 4 <= w && b <= y0 && y0 + b <= h
    } else {
        y0 + 4 * k + 4 <= h && b <= x0 && x0 + b <= w
    }
}

/// Walk one superblock edge mask and filter every marked edge.
///
/// `is_v` selects horizontal edges (filtering down columns); `is_uv` selects
/// the chroma width tiers.  The result is exactly the fold of
/// [`spec_lf_sb_step`] over all 32 mask positions.
#[verifier::rlimit(80)]
pub fn loop_filter_sb_mask(
    p: &mut Plane,
    lut: &Av1FilterLUT,
    is_v: bool,
    is_uv: bool,
    x0: usize,
    y0: usize,
    lvl: &Vec<u8>,
    lbase: usize,
    b4s: usize,
    vm0: u32,
    vm1: u32,
    vm2: u32,
    s: u8,
    bdmax: u16,
)
    requires
        old(p).wf(),
        lut.wf(),
        s <= 8,
        forall|k: int|
            0 <= k < 32 && #[trigger] bit32(spec_vm(is_uv, vm0, vm1, vm2), k)
                ==> spec_lf_sb_bounds(
                old(p).spec_w(),
                old(p).spec_h(),
                k,
                is_v,
                is_uv,
                x0 as int,
                y0 as int,
                lvl@,
                lbase as int,
                b4s as int,
                vm1,
                vm2,
            ),
    ensures
        final (p).wf(),
        final (p).spec_w() == old(p).spec_w(),
        final (p).spec_h() == old(p).spec_h(),
        final (p).spec_flipped() == old(p).spec_flipped(),
        final (p).view() == spec_lf_sb_sweep(
            old(p).view(),
            32,
            is_v,
            is_uv,
            x0 as int,
            y0 as int,
            lvl@,
            lbase as int,
            b4s as int,
            *lut,
            s as nat,
            bdmax as int,
            vm0,
            vm1,
            vm2,
        ),
{
    let ghost pv = old(p).view();
    let lvl_n: usize = lvl.len();
    let vm: u32 = if is_uv {
        vm0 | vm1
    } else {
        vm0 | vm1 | vm2
    };
    let mut k: usize = 0;
    while k < 32 && (vm >> k) != 0
        invariant
            pv == old(p).view(),
            old(p).wf(),
            p.wf(),
            p.spec_w() == old(p).spec_w(),
            p.spec_h() == old(p).spec_h(),
            p.spec_flipped() == old(p).spec_flipped(),
            lut.wf(),
            s <= 8,
            k <= 32,
            vm == spec_vm(is_uv, vm0, vm1, vm2),
            lvl_n == lvl@.len(),
            forall|j: int|
                0 <= j < 32 && #[trigger] bit32(spec_vm(is_uv, vm0, vm1, vm2), j)
                    ==> spec_lf_sb_bounds(
                    old(p).spec_w(),
                    old(p).spec_h(),
                    j,
                    is_v,
                    is_uv,
                    x0 as int,
                    y0 as int,
                    lvl@,
                    lbase as int,
                    b4s as int,
                    vm1,
                    vm2,
                ),
            p.view() == spec_lf_sb_sweep(
                pv,
                k as nat,
                is_v,
                is_uv,
                x0 as int,
                y0 as int,
                lvl@,
                lbase as int,
                b4s as int,
                *lut,
                s as nat,
                bdmax as int,
                vm0,
                vm1,
                vm2,
            ),
        decreases 32 - k,
    {
        let ghost prev = p.view();
        if vm & (1u32 << k) != 0 {
            proof {
                assert(bit32(spec_vm(is_uv, vm0, vm1, vm2), k as int));
            }
            let li: usize = if is_v {
                lbase + k
            } else {
                lbase + k * b4s
            };
            let fb: usize = if is_v {
                b4s
            } else {
                1
            };
            let l: u8 = if lvl[li] != 0 {
                lvl[li]
            } else {
                lvl[li - fb]
            };
            if l != 0 {
                let wd: usize = if is_uv {
                    if vm1 & (1u32 << k) != 0 {
                        6
                    } else {
                        4
                    }
                } else {
                    if vm2 & (1u32 << k) != 0 {
                        16
                    } else if vm1 & (1u32 << k) != 0 {
                        8
                    } else {
                        4
                    }
                };
                let e8 = lut.e[l as usize];
                let i8v = lut.i[l as usize];
                let h8 = l / 16;
                if is_v {
                    loop_filter_edge_v(p, y0, x0 + 4 * k, wd, e8, i8v, h8, s, bdmax);
                } else {
                    loop_filter_edge_h(p, y0 + 4 * k, x0, wd, e8, i8v, h8, s, bdmax);
                }
            }
        }
        proof {
            assert(p.view() == spec_lf_sb_step(
                prev,
                k as int,
                is_v,
                is_uv,
                x0 as int,
                y0 as int,
                lvl@,
                lbase as int,
                b4s as int,
                *lut,
                s as nat,
                bdmax as int,
                vm0,
                vm1,
                vm2,
            ));
        }
        k += 1;
    }
    proof {
        if k < 32 {
            assert(vm >> (k as u32) == 0);
            assert forall|j: int| k <= j < 32 implies !bit32(vm, j) by {
                let ju = j as u32;
                let ku = k as u32;
                assert((vm >> ku == 0 && ku <= ju < 32) ==> vm & (1u32 << ju) == 0)
                    by (bit_vector);
            }
            lemma_sweep_stable(
                pv,
                k as nat,
                32,
                is_v,
                is_uv,
                x0 as int,
                y0 as int,
                lvl@,
                lbase as int,
                b4s as int,
                *lut,
                s as nat,
                bdmax as int,
                vm0,
                vm1,
                vm2,
            );
        }
    }
}

/// Vertical-edge pass over one luma superblock column: mask bits advance
/// down rows.
pub fn loop_filter_h_sb128y(
    p: &mut Plane,
    lut: &Av1FilterLUT,
    x0: usize,
    y0: usize,
    vmask: &[u32; 3],
    lvl: &Vec<u8>,
    lbase: usize,
    b4s: usize,
    s: u8,
    bdmax: u16,
)
    requires
        old(p).wf(),
        lut.wf(),
        s <= 8,
        forall|k: int|
            0 <= k < 32 && #[trigger] bit32(spec_vm(false, vmask[0], vmask[1], vmask[2]), k)
                ==> spec_lf_sb_bounds(
                old(p).spec_w(),
                old(p).spec_h(),
                k,
                false,
                false,
                x0 as int,
                y0 as int,
                lvl@,
                lbase as int,
                b4s as int,
                vmask[1],
                vmask[2],
            ),
    ensures
        final (p).wf(),
        final (p).spec_w() == old(p).spec_w(),
        final (p).spec_h() == old(p).spec_h(),
        final (p).spec_flipped() == old(p).spec_flipped(),
        final (p).view() == spec_lf_sb_sweep(
            old(p).view(),
            32,
            false,
            false,
            x0 as int,
            y0 as int,
            lvl@,
            lbase as int,
            b4s as int,
            *lut,
            s as nat,
            bdmax as int,
            vmask[0],
            vmask[1],
            vmask[2],
        ),
{
    loop_filter_sb_mask(
        p,
        lut,
        false,
        false,
        x0,
        y0,
        lvl,
        lbase,
        b4s,
        vmask[0],
        vmask[1],
        vmask[2],
        s,
        bdmax,
    );
}

/// Horizontal-edge pass over one luma superblock row: mask bits advance
/// across columns.
pub fn loop_filter_v_sb128y(
    p: &mut Plane,
    lut: &Av1FilterLUT,
    x0: usize,
    y0: usize,
    vmask: &[u32; 3],
    lvl: &Vec<u8>,
    lbase: usize,
    b4s: usize,
    s: u8,
    bdmax: u16,
)
    requires
        old(p).wf(),
        lut.wf(),
        s <= 8,
        forall|k: int|
            0 <= k < 32 && #[trigger] bit32(spec_vm(false, vmask[0], vmask[1], vmask[2]), k)
                ==> spec_lf_sb_bounds(
                old(p).spec_w(),
                old(p).spec_h(),
                k,
                true,
                false,
                x0 as int,
                y0 as int,
                lvl@,
                lbase as int,
                b4s as int,
                vmask[1],
                vmask[2],
            ),
    ensures
        final (p).wf(),
        final (p).spec_w() == old(p).spec_w(),
        final (p).spec_h() == old(p).spec_h(),
        final (p).spec_flipped() == old(p).spec_flipped(),
        final (p).view() == spec_lf_sb_sweep(
            old(p).view(),
            32,
            true,
            false,
            x0 as int,
            y0 as int,
            lvl@,
            lbase as int,
            b4s as int,
            *lut,
            s as nat,
            bdmax as int,
            vmask[0],
            vmask[1],
            vmask[2],
        ),
{
    loop_filter_sb_mask(
        p,
        lut,
        true,
        false,
        x0,
        y0,
        lvl,
        lbase,
        b4s,
        vmask[0],
        vmask[1],
        vmask[2],
        s,
        bdmax,
    );
}

/// Vertical-edge pass over one chroma superblock column.
pub fn loop_filter_h_sb128uv(
    p: &mut Plane,
    lut: &Av1FilterLUT,
    x0: usize,
    y0: usize,
    vmask: &[u32; 2],
    lvl: &Vec<u8>,
    lbase: usize,
    b4s: usize,
    s: u8,
    bdmax: u16,
)
    requires
        old(p).wf(),
        lut.wf(),
        s <= 8,
        forall|k: int|
            0 <= k < 32 && #[trigger] bit32(spec_vm(true, vmask[0], vmask[1], 0), k)
                ==> spec_lf_sb_bounds(
                old(p).spec_w(),
                old(p).spec_h(),
                k,
                false,
                true,
                x0 as int,
                y0 as int,
                lvl@,
                lbase as int,
                b4s as int,
                vmask[1],
                0,
            ),
    ensures
        final (p).wf(),
        final (p).spec_w() == old(p).spec_w(),
        final (p).spec_h() == old(p).spec_h(),
        final (p).spec_flipped() == old(p).spec_flipped(),
        final (p).view() == spec_lf_sb_sweep(
            old(p).view(),
            32,
            false,
            true,
            x0 as int,
            y0 as int,
            lvl@,
            lbase as int,
            b4s as int,
            *lut,
            s as nat,
            bdmax as int,
            vmask[0],
            vmask[1],
            0,
        ),
{
    loop_filter_sb_mask(
        p,
        lut,
        false,
        true,
        x0,
        y0,
        lvl,
        lbase,
        b4s,
        vmask[0],
        vmask[1],
        0,
        s,
        bdmax,
    );
}

/// Horizontal-edge pass over one chroma superblock row.
pub fn loop_filter_v_sb128uv(
    p: &mut Plane,
    lut: &Av1FilterLUT,
    x0: usize,
    y0: usize,
    vmask: &[u32; 2],
    lvl: &Vec<u8>,
    lbase: usize,
    b4s: usize,
    s: u8,
    bdmax: u16,
)
    requires
        old(p).wf(),
        lut.wf(),
        s <= 8,
        forall|k: int|
            0 <= k < 32 && #[trigger] bit32(spec_vm(true, vmask[0], vmask[1], 0), k)
                ==> spec_lf_sb_bounds(
                old(p).spec_w(),
                old(p).spec_h(),
                k,
                true,
                true,
                x0 as int,
                y0 as int,
                lvl@,
                lbase as int,
                b4s as int,
                vmask[1],
                0,
            ),
    ensures
        final (p).wf(),
        final (p).spec_w() == old(p).spec_w(),
        final (p).spec_h() == old(p).spec_h(),
        final (p).spec_flipped() == old(p).spec_flipped(),
        final (p).view() == spec_lf_sb_sweep(
            old(p).view(),
            32,
            true,
            true,
            x0 as int,
            y0 as int,
            lvl@,
            lbase as int,
            b4s as int,
            *lut,
            s as nat,
            bdmax as int,
            vmask[0],
            vmask[1],
            0,
        ),
{
    loop_filter_sb_mask(
        p,
        lut,
        true,
        true,
        x0,
        y0,
        lvl,
        lbase,
        b4s,
        vmask[0],
        vmask[1],
        0,
        s,
        bdmax,
    );
}


/// For every level `L` in `1..64`, the thresholds a walker hands the filter
/// come from the canonical tables: `I` is the sharpness-attenuated limit,
/// `E = 2 * (L + 2) + I`, and `H = L >> 4` is derived directly from the
/// level.
pub proof fn lemma_level_thresholds(lut: Av1FilterLUT, sharp: int, l: int)
    requires
        lut.canonical(sharp),
        1 <= l < 64,
    ensures
        lut.i@[l] == spec_limit(sharp, l),
        lut.e@[l] == 2 * (l + 2) + spec_limit(sharp, l),
        ((l as u8) >> 4u8) == l / 16,
{
    let lu = l as u8;
    assert((lu >> 4u8) == lu / 16) by (bit_vector);
    assert(lut.e@[l] == spec_edge_threshold(sharp, l));
    assert(spec_edge_threshold(sharp, l) == 2 * (l + 2) + spec_limit(sharp, l));
}

/// A mask position whose looked-up level is zero never touches the plane,
/// and neither does one whose mask bit is clear.
pub proof fn lemma_zero_level_skips(
    pv: Seq<Seq<u16>>,
    k: int,
    is_v: bool,
    is_uv: bool,
    x0: int,
    y0: int,
    lvlv: Seq<u8>,
    lbase: int,
    b4s: int,
    lut: Av1FilterLUT,
    s: nat,
    bdmax: int,
    vm0: u32,
    vm1: u32,
    vm2: u32,
)
    requires
        !bit32(spec_vm(is_uv, vm0, vm1, vm2), k) || spec_level(
            lvlv,
            if is_v {
                lbase + k
            } else {
                lbase + k * b4s
            },
            if is_v {
                b4s
            } else {
                1
            },
        ) == 0,
    ensures
        spec_lf_sb_step(pv, k, is_v, is_uv, x0, y0, lvlv, lbase, b4s, lut, s, bdmax, vm0, vm1, vm2)
            == pv,
{
}

/// A perfectly flat window — every sample equal and representable at the
/// configured bit depth — passes through the filter unchanged, whatever the
/// width and thresholds: the flatness tests succeed and a weighted average
/// of equal samples is that sample, while the narrow correction computes a
/// zero adjustment.
pub proof fn lemma_flat_edge_unchanged(
    win: Seq<u16>,
    wd: int,
    e8: int,
    i8: int,
    h8: int,
    s: nat,
    bdmax: int,
    v: u16,
)
    requires
        wd == 4 || wd == 6 || wd == 8 || wd == 16,
        win.len() == 2 * spec_half(wd),
        forall|i: int| 0 <= i < win.len() ==> win[i] == v,
        0 <= e8,
        0 <= i8,
        0 <= h8,
        s <= 8,
        v <= bdmax,
    ensures
        spec_loop_filter(win, wd, e8, i8, h8, s, bdmax) == win,
{
    let b = spec_half(wd);
    let sh = pow2(s) as int;
    vstd::arithmetic::power2::lemma_pow2_pos(s);
    let ee = e8 * sh;
    let ii = i8 * sh;
    let hh = h8 * sh;
    assert(0 <= e8 * sh && 0 <= i8 * sh && 0 <= h8 * sh) by (nonlinear_arith)
        requires
            0 <= e8 && 0 <= i8 && 0 <= h8 && 0 < sh,
    ;
    assert(spec_fm(win, wd, ee, ii));
    let vi = v as int;
    if wd >= 16 {
        assert(spec_flat8out(win, sh));
        assert(spec_flat8in(win, wd, sh));
        let out = spec_loop_filter(win, wd, e8, i8, h8, s, bdmax);
        assert forall|k: int| 0 <= k < win.len() implies out[k] == win[k] by {
            if 1 <= k <= 12 {
                lemma_div_multiples_vanish_fancy(vi, 8, 16);
                assert(wide16_cell(win, k - 7) == vi);
            }
        }
        assert(out =~= win);
    } else if wd == 8 {
        assert(spec_flat8in(win, wd, sh));
        let out = spec_loop_filter(win, wd, e8, i8, h8, s, bdmax);
        assert forall|k: int| 0 <= k < win.len() implies out[k] == win[k] by {
            if 1 <= k <= 6 {
                lemma_div_multiples_vanish_fancy(vi, 4, 8);
                assert(wide8_cell(win, b, k - b) == vi);
            }
        }
        assert(out =~= win);
    } else if wd == 6 {
        assert(spec_flat8in(win, wd, sh));
        let out = spec_loop_filter(win, wd, e8, i8, h8, s, bdmax);
        assert forall|k: int| 0 <= k < win.len() implies out[k] == win[k] by {
            if 1 <= k <= 4 {
                lemma_div_multiples_vanish_fancy(vi, 4, 8);
                assert(wide6_cell(win, b, k - b) == vi);
            }
        }
        assert(out =~= win);
    } else {
        assert(!spec_hev(win, b, hh));
        let mx = 128 * sh - 1;
        let mn = -128 * sh;
        assert(mx >= 127 && mn <= -128);
        let f = crate::spec_iclip(0, mn, mx);
        assert(f == 0);
        assert(spec_min(4, mx) == 4 && spec_min(3, mx) == 3);
        assert(4int / 8 == 0 && 3int / 8 == 0 && (0int + 1) / 2 == 0);
        let out = spec_narrow(win, b, hh, sh, bdmax);
        assert(crate::spec_iclip(vi + 0, 0, bdmax) == vi);
        assert(crate::spec_iclip(vi - 0, 0, bdmax) == vi);
        assert forall|k: int| 0 <= k < win.len() implies out[k] == win[k] by {}
        assert(out =~= win);
    }
}


/// One slot of the loop-filter kernel table.
///
/// A portable build detects no accelerated implementation, so the only
/// variant is the generic path.  An accelerated variant would be added
/// here and dispatched below — and would have to satisfy the very same
/// postcondition, which admits exactly one output for a given input
/// (see [`lemma_kernel_paths_bit_identical`]).
#[derive(Clone, Copy, PartialEq, Eq, Structural)]
pub enum LoopFilterKernel {
    Generic,
}

/// The per-context kernel table: one slot per plane kind and edge
/// direction, selected once at context initialisation and immutable
/// thereafter.
pub struct Rav1dLoopFilterDSPContext {
    pub sb_y_h: LoopFilterKernel,
    pub sb_y_v: LoopFilterKernel,
    pub sb_uv_h: LoopFilterKernel,
    pub sb_uv_v: LoopFilterKernel,
}

/// Populate the kernel table for the detected capabilities; the portable
/// build always selects the generic path.
pub fn rav1d_loop_filter_dsp_init() -> (r: Rav1dLoopFilterDSPContext)
    ensures
        r.sb_y_h == LoopFilterKernel::Generic,
        r.sb_y_v == LoopFilterKernel::Generic,
        r.sb_uv_h == LoopFilterKernel::Generic,
        r.sb_uv_v == LoopFilterKernel::Generic,
{
    Rav1dLoopFilterDSPContext {
        sb_y_h: LoopFilterKernel::Generic,
        sb_y_v: LoopFilterKernel::Generic,
        sb_uv_h: LoopFilterKernel::Generic,
        sb_uv_v: LoopFilterKernel::Generic,
    }
}

impl Rav1dLoopFilterDSPContext {
    /// Run the selected luma kernel for one superblock edge mask.
    /// Whatever the selected kernel, the output is the mask sweep of
    /// [`spec_lf_sb_step`]: the contract every implementation must meet.
    pub fn loop_filter_sb_y(
        &self,
        p: &mut Plane,
        lut: &Av1FilterLUT,
        is_v: bool,
        x0: usize,
        y0: usize,
        vmask: &[u32; 3],
        lvl: &Vec<u8>,
        lbase: usize,
        b4s: usize,
        s: u8,
        bdmax: u16,
    )
        requires
            old(p).wf(),
            lut.wf(),
            s <= 8,
            forall|k: int|
                0 <= k < 32 && #[trigger] bit32(spec_vm(false, vmask[0], vmask[1], vmask[2]), k)
                    ==> spec_lf_sb_bounds(
                    old(p).spec_w(),
                    old(p).spec_h(),
                    k,
                    is_v,
                    false,
                    x0 as int,
                    y0 as int,
                    lvl@,
                    lbase as int,
                    b4s as int,
                    vmask[1],
                    vmask[2],
                ),
        ensures
            final (p).wf(),
            final (p).spec_w() == old(p).spec_w(),
            final (p).spec_h() == old(p).spec_h(),
            final (p).spec_flipped() == old(p).spec_flipped(),
            final (p).view() == spec_lf_sb_sweep(
                old(p).view(),
                32,
                is_v,
                false,
                x0 as int,
                y0 as int,
                lvl@,
                lbase as int,
                b4s as int,
                *lut,
                s as nat,
                bdmax as int,
                vmask[0],
                vmask[1],
                vmask[2],
            ),
    {
        let kernel = if is_v {
            self.sb_y_v
        } else {
            self.sb_y_h
        };
        match kernel {
            LoopFilterKernel::Generic => {
                loop_filter_sb_mask(
                    p,
                    lut,
                    is_v,
                    false,
                    x0,
                    y0,
                    lvl,
                    lbase,
                    b4s,
                    vmask[0],
                    vmask[1],
                    vmask[2],
                    s,
                    bdmax,
                );
            },
        }
    }

    /// Run the selected chroma kernel for one superblock edge mask, under
    /// the same exact contract as the generic path.
    pub fn loop_filter_sb_uv(
        &self,
        p: &mut Plane,
        lut: &Av1FilterLUT,
        is_v: bool,
        x0: usize,
        y0: usize,
        vmask: &[u32; 2],
        lvl: &Vec<u8>,
        lbase: usize,
        b4s: usize,
        s: u8,
        bdmax: u16,
    )
        requires
            old(p).wf(),
            lut.wf(),
            s <= 8,
            forall|k: int|
                0 <= k < 32 && #[trigger] bit32(spec_vm(true, vmask[0], vmask[1], 0), k)
                    ==> spec_lf_sb_bounds(
                    old(p).spec_w(),
                    old(p).spec_h(),
                    k,
                    is_v,
                    true,
                    x0 as int,
                    y0 as int,
                    lvl@,
                    lbase as int,
                    b4s as int,
                    vmask[1],
                    0,
                ),
        ensures
            final (p).wf(),
            final (p).spec_w() == old(p).spec_w(),
            final (p).spec_h() == old(p).spec_h(),
            final (p).spec_flipped() == old(p).spec_flipped(),
            final (p).view() == spec_lf_sb_sweep(
                old(p).view(),
                32,
                is_v,
                true,
                x0 as int,
                y0 as int,
                lvl@,
                lbase as int,
                b4s as int,
                *lut,
                s as nat,
                bdmax as int,
                vmask[0],
                vmask[1],
                0,
            ),
    {
        let kernel = if is_v {
            self.sb_uv_v
        } else {
            self.sb_uv_h
        };
        match kernel {
            LoopFilterKernel::Generic => {
                loop_filter_sb_mask(
                    p,
                    lut,
                    is_v,
                    true,
                    x0,
                    y0,
                    lvl,
                    lbase,
                    b4s,
                    vmask[0],
                    vmask[1],
                    0,
                    s,
                    bdmax,
                );
            },
        }
    }
}

/// Bit-exactness of kernel substitution: the dispatch contract determines
/// the output completely, so any two implementations that satisfy it — the
/// generic path and any accelerated path — produce identical planes for
/// every valid input.
pub proof fn lemma_kernel_paths_bit_identical(
    out_a: Seq<Seq<u16>>,
    out_b: Seq<Seq<u16>>,
    pv: Seq<Seq<u16>>,
    is_v: bool,
    is_uv: bool,
    x0: int,
    y0: int,
    lvlv: Seq<u8>,
    lbase: int,
    b4s: int,
    lut: Av1FilterLUT,
    s: nat,
    bdmax: int,
    vm0: u32,
    vm1: u32,
    vm2: u32,
)
    requires
        out_a == spec_lf_sb_sweep(
            pv,
            32,
            is_v,
            is_uv,
            x0,
            y0,
            lvlv,
            lbase,
            b4s,
            lut,
            s,
            bdmax,
            vm0,
            vm1,
            vm2,
        ),
        out_b == spec_lf_sb_sweep(
            pv,
            32,
            is_v,
            is_uv,
            x0,
            y0,
            lvlv,
            lbase,
            b4s,
            lut,
            s,
            bdmax,
            vm0,
            vm1,
            vm2,
        ),
    ensures
        out_a == out_b,
{
}

} // verus!
