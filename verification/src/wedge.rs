//! Precomputed wedge and inter-intra mask tables.
//!
//! The masks are pure lookup data: 64×64 master templates are drawn from
//! three border profiles, cropped per codebook entry into per-block-size
//! masks, complemented for the opposite sign, and downsampled for the
//! chroma layouts.  Instead of process-wide mutable statics filled by
//! link-time constructors, an explicit one-time initialisation builds
//! owned tables held by the decoding context.

#![allow(non_camel_case_types)]

use vstd::arithmetic::div_mod::lemma_div_multiples_vanish_fancy;
use vstd::prelude::*;

verus! {

pub type WedgeDirectionType = u8;

pub const WEDGE_HORIZONTAL: WedgeDirectionType = 0;

pub const WEDGE_VERTICAL: WedgeDirectionType = 1;

pub const WEDGE_OBLIQUE27: WedgeDirectionType = 2;

pub const WEDGE_OBLIQUE63: WedgeDirectionType = 3;

pub const WEDGE_OBLIQUE117: WedgeDirectionType = 4;

pub const WEDGE_OBLIQUE153: WedgeDirectionType = 5;

/// One wedge codebook entry: a master direction and the crop offsets in
/// eighths of the block size.
pub struct wedge_code_type {
    pub direction: WedgeDirectionType,
    pub x_offset: u8,
    pub y_offset: u8,
}

impl wedge_code_type {
    pub fn new(x_offset: u8, y_offset: u8, direction: WedgeDirectionType) -> (r: wedge_code_type)
        ensures
            r.direction == direction,
            r.x_offset == x_offset,
            r.y_offset == y_offset,
    {
        wedge_code_type { direction, x_offset, y_offset }
    }
}

/// The value of row cell `c` after a border profile `src` is inserted at
/// centre `ctr`: zero left of the profile, the profile itself (truncated
/// at the row's right edge for a centre past column 56), the full weight
/// 64 to its right, and — in the truncated case only — the prior cell
/// `prev` in the unwritten gap at the row's end.
pub open spec fn spec_border_cell(src: Seq<u8>, ctr: int, c: int, prev: u8) -> u8 {
    let len = if 64 - ctr < 8 {
        64 - ctr
    } else {
        8
    };
    if c < ctr - 4 {
        0
    } else if c < ctr - 4 + len {
        src[c - (ctr - 4)]
    } else if ctr < 60 && ctr + 4 <= c {
        64
    } else {
        prev
    }
}

/// Write one 64-sample master row: the eight-sample border profile `src`
/// centred at column `ctr`, zeros to its left and 64 to its right; a
/// centre past column 56 truncates the copied profile at the row's edge.
pub fn insert_border(dst: &mut Vec<u8>, y: usize, src: &Vec<u8>, ctr: usize)
    requires
        old(dst).len() == 64 * 64,
        src.len() == 8,
        y < 64,
        4 <= ctr <= 64,
    ensures
        final (dst).len() == 64 * 64,
        forall|c: int|
            0 <= c < 64 ==> #[trigger] final (dst)@[y * 64 + c] == spec_border_cell(
                src@,
                ctr as int,
                c,
                old(dst)@[y * 64 + c],
            ),
        forall|i: int|
            0 <= i < 64 * 64 && !(y * 64 <= i < y * 64 + 64) ==> #[trigger] final (dst)@[i] == old(
                dst,
            )@[i],
{
    let base = y * 64;
    let len: usize = if 64 - ctr < 8 {
        64 - ctr
    } else {
        8
    };
    let mut c: usize = 0;
    while c < 64
        invariant
            dst.len() == 64 * 64,
            src.len() == 8,
            y < 64,
            4 <= ctr <= 64,
            len == (if 64 - ctr < 8 {
                64 - ctr as int
            } else {
                8int
            }),
            base == y * 64,
            c <= 64,
            forall|cc: int|
                0 <= cc < c ==> #[trigger] dst@[base + cc] == spec_border_cell(
                    src@,
                    ctr as int,
                    cc,
                    old(dst)@[base + cc],
                ),
            forall|i: int|
                0 <= i < 64 * 64 && !(base <= i < base + 64) ==> #[trigger] dst@[i] == old(dst)@[i],
            forall|i: int|
                base + c <= i < base + 64 ==> #[trigger] dst@[i] == old(dst)@[i],
        decreases 64 - c,
    {
        if c + 4 < ctr {
            dst.set(base + c, 0);
        } else if c + 4 < ctr + len {
            dst.set(base + c, src[c + 4 - ctr]);
        } else if ctr < 60 && ctr + 4 <= c {
            dst.set(base + c, 64);
        }
        c += 1;
    }
}

/// Mirror a 64×64 template left-to-right.
pub fn hflip(src: &Vec<u8>) -> (r: Vec<u8>)
    requires
        src.len() == 64 * 64,
    ensures
        r.len() == 64 * 64,
        forall|y: int, x: int|
            0 <= y < 64 && 0 <= x < 64 ==> #[trigger] r@[y * 64 + x] == src@[y * 64 + 63 - x],
{
    let mut out: Vec<u8> = Vec::new();
    let mut y: usize = 0;
    while y < 64
        invariant
            src.len() == 64 * 64,
            y <= 64,
            out.len() == y * 64,
            forall|yy: int, x: int|
                0 <= yy < y && 0 <= x < 64 ==> #[trigger] out@[yy * 64 + x] == src@[yy * 64 + 63
                    - x],
        decreases 64 - y,
    {
        let mut x: usize = 0;
        while x < 64
            invariant
                src.len() == 64 * 64,
                y < 64,
                x <= 64,
                out.len() == y * 64 + x,
                forall|yy: int, xx: int|
                    0 <= yy < y && 0 <= xx < 64 ==> #[trigger] out@[yy * 64 + xx] == src@[yy * 64
                        + 63 - xx],
                forall|xx: int|
                    0 <= xx < x ==> #[trigger] out@[y * 64 + xx] == src@[y * 64 + 63 - xx],
            decreases 64 - x,
        {
            out.push(src[y * 64 + 63 - x]);
            x += 1;
        }
        y += 1;
    }
    out
}

/// Transpose a 64×64 template.
pub fn transposed(src: &Vec<u8>) -> (r: Vec<u8>)
    requires
        src.len() == 64 * 64,
    ensures
        r.len() == 64 * 64,
        forall|y: int, x: int|
            0 <= y < 64 && 0 <= x < 64 ==> #[trigger] r@[y * 64 + x] == src@[x * 64 + y],
{
    let mut out: Vec<u8> = Vec::new();
    let mut y: usize = 0;
    while y < 64
        invariant
            src.len() == 64 * 64,
            y <= 64,
            out.len() == y * 64,
            forall|yy: int, x: int|
                0 <= yy < y && 0 <= x < 64 ==> #[trigger] out@[yy * 64 + x] == src@[x * 64 + yy],
        decreases 64 - y,
    {
        let mut x: usize = 0;
        while x < 64
            invariant
                src.len() == 64 * 64,
                y < 64,
                x <= 64,
                out.len() == y * 64 + x,
                forall|yy: int, xx: int|
                    0 <= yy < y && 0 <= xx < 64 ==> #[trigger] out@[yy * 64 + xx] == src@[xx * 64
                        + yy],
                forall|xx: int|
                    0 <= xx < x ==> #[trigger] out@[y * 64 + xx] == src@[xx * 64 + y],
            decreases 64 - x,
        {
            out.push(src[x * 64 + y]);
            x += 1;
        }
        y += 1;
    }
    out
}

/// Complement a mask region in place: cell `dst_off + i` becomes `64`
/// minus cell `src_off + i` of the same buffer.  The regions must not
/// overlap.
pub fn invert(buf: &mut Vec<u8>, dst_off: usize, src_off: usize, n: usize)
    requires
        dst_off + n <= old(buf).len(),
        src_off + n <= dst_off,
        forall|i: int| 0 <= i < n ==> #[trigger] old(buf)@[src_off + i] <= 64,
    ensures
        final (buf).len() == old(buf).len(),
        forall|i: int|
            0 <= i < n ==> #[trigger] final (buf)@[dst_off + i] == 64 - old(buf)@[src_off + i],
        forall|i: int|
            0 <= i < old(buf).len() && !(dst_off <= i < dst_off + n) ==> #[trigger] final (buf)@[i]
                == old(buf)@[i],
{
    let mut i: usize = 0;
    while i < n
        invariant
            dst_off + n <= buf.len(),
            src_off + n <= dst_off,
            buf.len() == old(buf).len(),
            i <= n,
            forall|j: int| 0 <= j < n ==> #[trigger] buf@[src_off + j] == old(buf)@[src_off + j],
            forall|j: int| 0 <= j < n ==> #[trigger] old(buf)@[src_off + j] <= 64,
            forall|j: int|
                0 <= j < i ==> #[trigger] buf@[dst_off + j] == 64 - old(buf)@[src_off + j],
            forall|j: int|
                0 <= j < buf.len() && !(dst_off <= j < dst_off + i) ==> #[trigger] buf@[j] == old(
                    buf,
                )@[j],
        decreases n - i,
    {
        let v = buf[src_off + i];
        buf.set(dst_off + i, 64 - v);
        i += 1;
    }
}

/// Crop a `w`×`h` window of a 64×64 master template into `dst` at
/// `dst_off`, row-major.
pub fn copy2d(
    dst: &mut Vec<u8>,
    dst_off: usize,
    src: &Vec<u8>,
    w: usize,
    h: usize,
    x_off: usize,
    y_off: usize,
)
    requires
        src.len() == 64 * 64,
        x_off + w <= 64,
        y_off + h <= 64,
        dst_off + w * h <= old(dst).len(),
    ensures
        final (dst).len() == old(dst).len(),
        forall|y: int, x: int|
            0 <= y < h && 0 <= x < w ==> #[trigger] final (dst)@[dst_off + y * w + x] == src@[(y_off
                + y) * 64 + x_off + x],
        forall|i: int|
            0 <= i < old(dst).len() && !(dst_off <= i < dst_off + w * h) ==> #[trigger] final (
            dst)@[i] == old(dst)@[i],
{
    let mut y: usize = 0;
    while y < h
        invariant
            src.len() == 64 * 64,
            x_off + w <= 64,
            y_off + h <= 64,
            dst_off + w * h <= dst.len(),
            dst.len() == old(dst).len(),
            y <= h,
            forall|yy: int, x: int|
                0 <= yy < y && 0 <= x < w ==> #[trigger] dst@[dst_off + yy * w + x] == src@[(y_off
                    + yy) * 64 + x_off + x],
            forall|i: int|
                0 <= i < dst.len() && !(dst_off <= i < dst_off + y * w) ==> #[trigger] dst@[i]
                    == old(dst)@[i],
        decreases h - y,
    {
        proof {
            assert(y * w + w <= h * w) by (nonlinear_arith)
                requires
                    y < h,
                    0 <= w,
            ;
            assert(w * h == h * w) by (nonlinear_arith);
            assert((y + 1) * w == y * w + w) by (nonlinear_arith);
            assert((y_off + y) * 64 + x_off + w <= 64 * 64) by (nonlinear_arith)
                requires
                    y_off + y < 64,
                    x_off + w <= 64,
            ;
            assert forall|yy: int| 0 <= yy < y implies #[trigger] (yy * w) + w <= y * w by {
                assert(yy * w + w <= y * w) by (nonlinear_arith)
                    requires
                        0 <= yy < y,
                        0 <= w,
                ;
            }
        }
        let mut x: usize = 0;
        while x < w
            invariant
                src.len() == 64 * 64,
                x_off + w <= 64,
                y_off + h <= 64,
                y < h,
                x <= w,
                y * w + w <= h * w,
                w * h == h * w,
                (y + 1) * w == y * w + w,
                (y_off + y) * 64 + x_off + w <= 64 * 64,
                forall|yy: int| 0 <= yy < y ==> #[trigger] (yy * w) + w <= y * w,
                dst_off + w * h <= dst.len(),
                dst.len() == old(dst).len(),
                forall|yy: int, xx: int|
                    0 <= yy < y && 0 <= xx < w ==> #[trigger] dst@[dst_off + yy * w + xx] == src@[(
                    y_off + yy) * 64 + x_off + xx],
                forall|xx: int|
                    0 <= xx < x ==> #[trigger] dst@[dst_off + y * w + xx] == src@[(y_off + y) * 64
                        + x_off + xx],
                forall|i: int|
                    0 <= i < dst.len() && !(dst_off <= i < dst_off + y * w + x) ==> #[trigger] dst@[i] == old(dst)@[i],
            decreases w - x,
        {
            let v = src[(y_off + y) * 64 + x_off + x];
            dst.set(dst_off + y * w + x, v);
            x += 1;
        }
        proof {
            assert forall|yy: int, xx: int|
                0 <= yy < y + 1 && 0 <= xx < w implies #[trigger] dst@[dst_off + yy * w + xx]
                == src@[(y_off + yy) * 64 + x_off + xx] by {
                if yy < y {
                    assert(dst@[dst_off + yy * w + xx] == src@[(y_off + yy) * 64 + x_off + xx]);
                }
            }
        }
        y += 1;
    }
    proof {
        assert(w * h == h * w) by (nonlinear_arith);
    }
}


/// One chroma mask sample: the rounded average of the 2 (or, with
/// vertical subsampling, 4) covering luma mask samples, biased down by
/// `sign`.
pub open spec fn spec_chroma_cell(
    luma: Seq<u8>,
    l_off: int,
    sign: int,
    w: int,
    ss_ver: int,
    cy: int,
    cx: int,
) -> int {
    let base = l_off + (cy * (1 + ss_ver)) * w;
    let sum0 = luma[base + 2 * cx] + luma[base + 2 * cx + 1] + 1;
    let sum = if ss_ver == 1 {
        sum0 + luma[base + w + 2 * cx] + luma[base + w + 2 * cx + 1] + 1
    } else {
        sum0
    };
    (sum - sign) / (if ss_ver == 1 {
        4int
    } else {
        2int
    })
}

/// Downsample a `w`×`h` luma mask into a chroma mask at `c_off`, halving
/// horizontally and, when `ss_ver` is set, vertically too.
#[verifier::rlimit(60)]
pub fn init_chroma(
    chroma: &mut Vec<u8>,
    c_off: usize,
    luma: &Vec<u8>,
    l_off: usize,
    sign: u8,
    w: usize,
    h: usize,
    ss_ver: usize,
)
    requires
        sign <= 1,
        ss_ver <= 1,
        w % 2 == 0,
        2 <= w <= 64,
        1 <= h <= 64,
        ss_ver == 1 ==> h % 2 == 0,
        l_off + h * w <= luma.len(),
        c_off + (if ss_ver == 1 {
            h / 2
        } else {
            h
        }) * (w / 2) <= old(chroma).len(),
        forall|i: int| 0 <= i < h * w ==> #[trigger] luma@[l_off + i] <= 64,
    ensures
        final (chroma).len() == old(chroma).len(),
        forall|cy: int, cx: int|
            0 <= cy < (if ss_ver == 1 {
                h as int / 2
            } else {
                h as int
            }) && 0 <= cx < w / 2 ==> #[trigger] final (chroma)@[c_off + cy * (w / 2) + cx]
                == spec_chroma_cell(luma@, l_off as int, sign as int, w as int, ss_ver as int, cy, cx),
        forall|i: int|
            0 <= i < old(chroma).len() && !(c_off <= i < c_off + (if ss_ver == 1 {
                h as int / 2
            } else {
                h as int
            }) * (w / 2)) ==> #[trigger] final (chroma)@[i] == old(chroma)@[i],
{
    let luma_n: usize = luma.len();
    let w2 = w / 2;
    let rows: usize = if ss_ver == 1 {
        h / 2
    } else {
        h
    };
    let step: usize = 1 + ss_ver;
    let d: u16 = if ss_ver == 1 {
        4
    } else {
        2
    };
    let mut cy: usize = 0;
    while cy < rows
        invariant
            sign <= 1,
            ss_ver <= 1,
            w % 2 == 0,
            2 <= w <= 64,
            1 <= h <= 64,
            ss_ver == 1 ==> h % 2 == 0,
            w2 == w / 2,
            rows == (if ss_ver == 1 {
                h as int / 2
            } else {
                h as int
            }),
            step == 1 + ss_ver,
            rows <= h,
            d == (if ss_ver == 1 {
                4u16
            } else {
                2u16
            }),
            l_off + h * w <= luma_n,
            luma_n == luma.len(),
            c_off + rows * w2 <= chroma.len(),
            chroma.len() == old(chroma).len(),
            forall|i: int| 0 <= i < h * w ==> #[trigger] luma@[l_off + i] <= 64,
            cy <= rows,
            forall|yy: int, cx: int|
                0 <= yy < cy && 0 <= cx < w2 ==> #[trigger] chroma@[c_off + yy * w2 + cx]
                    == spec_chroma_cell(
                    luma@,
                    l_off as int,
                    sign as int,
                    w as int,
                    ss_ver as int,
                    yy,
                    cx,
                ),
            forall|i: int|
                0 <= i < chroma.len() && !(c_off <= i < c_off + cy * w2) ==> #[trigger] chroma@[i]
                    == old(chroma)@[i],
        decreases rows - cy,
    {
        proof {
            assert(h * w <= 4096) by (nonlinear_arith)
                requires
                    h <= 64,
                    w <= 64,
            ;
            assert(cy * step <= 128) by (nonlinear_arith)
                requires
                    cy <= 64,
                    step <= 2,
            ;
            assert(w <= step * w) by (nonlinear_arith)
                requires
                    1 <= step,
                    0 <= w,
            ;
            assert(cy * w2 + w2 <= rows * w2 && (cy + 1) * w2 == cy * w2 + w2) by (nonlinear_arith)
                requires
                    cy < rows,
                    0 <= w2,
            ;
            assert forall|yy: int| 0 <= yy < cy implies #[trigger] (yy * w2) + w2 <= cy * w2 by {
                assert(yy * w2 + w2 <= cy * w2) by (nonlinear_arith)
                    requires
                        0 <= yy < cy,
                        0 <= w2,
                ;
            }
            assert(rows * step <= h) by (nonlinear_arith)
                requires
                    rows == (if ss_ver == 1 {
                        h as int / 2
                    } else {
                        h as int
                    }),
                    step == 1 + ss_ver,
                    ss_ver <= 1,
                    h % 2 == 0 || ss_ver == 0,
            ;
            assert((cy * step) * w + step * w <= h * w) by (nonlinear_arith)
                requires
                    cy < rows,
                    rows * step <= h,
                    0 <= w,
                    1 <= step,
            ;
        }
        let lb = l_off + (cy * step) * w;
        let mut cx: usize = 0;
        while cx < w2
            invariant
                sign <= 1,
                ss_ver <= 1,
                w % 2 == 0,
                2 <= w <= 64,
                w2 == w / 2,
                step == 1 + ss_ver,
                d == (if ss_ver == 1 {
                    4u16
                } else {
                    2u16
                }),
                cy < rows,
                cx <= w2,
                lb == l_off + (cy * step) * w,
                (cy * step) * w + step * w <= h * w,
                w <= step * w,
                cy * w2 + w2 <= rows * w2,
                (cy + 1) * w2 == cy * w2 + w2,
                forall|yy: int| 0 <= yy < cy ==> #[trigger] (yy * w2) + w2 <= cy * w2,
                l_off + h * w <= luma_n,
                luma_n == luma.len(),
                c_off + rows * w2 <= chroma.len(),
                chroma.len() == old(chroma).len(),
                forall|i: int| 0 <= i < h * w ==> #[trigger] luma@[l_off + i] <= 64,
                forall|yy: int, xx: int|
                    0 <= yy < cy && 0 <= xx < w2 ==> #[trigger] chroma@[c_off + yy * w2 + xx]
                        == spec_chroma_cell(
                        luma@,
                        l_off as int,
                        sign as int,
                        w as int,
                        ss_ver as int,
                        yy,
                        xx,
                    ),
                forall|xx: int|
                    0 <= xx < cx ==> #[trigger] chroma@[c_off + cy * w2 + xx] == spec_chroma_cell(
                        luma@,
                        l_off as int,
                        sign as int,
                        w as int,
                        ss_ver as int,
                        cy as int,
                        xx,
                    ),
                forall|i: int|
                    0 <= i < chroma.len() && !(c_off <= i < c_off + cy * w2 + cx)
                        ==> #[trigger] chroma@[i] == old(chroma)@[i],
            decreases w2 - cx,
        {
            proof {
                assert(2 * cx + 1 < w) by (nonlinear_arith)
                    requires
                        cx < w2,
                        w2 == w / 2,
                        w % 2 == 0,
                        2 <= w,
                ;
            }
            let mut sum: u16 = luma[lb + 2 * cx] as u16 + luma[lb + 2 * cx + 1] as u16 + 1;
            if ss_ver == 1 {
                proof {
                    assert(step * w == 2 * w);
                }
                sum = sum + luma[lb + w + 2 * cx] as u16 + luma[lb + w + 2 * cx + 1] as u16 + 1;
            }
            let v: u8 = ((sum - sign as u16) / d) as u8;
            chroma.set(c_off + cy * w2 + cx, v);
            cx += 1;
        }
        proof {
            assert forall|yy: int, xx: int|
                0 <= yy < cy + 1 && 0 <= xx < w2 implies #[trigger] chroma@[c_off + yy * w2 + xx]
                == spec_chroma_cell(
                luma@,
                l_off as int,
                sign as int,
                w as int,
                ss_ver as int,
                yy,
                xx,
            ) by {
                if yy < cy {
                    assert(chroma@[c_off + yy * w2 + xx] == spec_chroma_cell(
                        luma@,
                        l_off as int,
                        sign as int,
                        w as int,
                        ss_ver as int,
                        yy,
                        xx,
                    ));
                }
            }
        }
        cy += 1;
    }
}


/// The complete wedge mask family of one block size: sixteen codebook
/// masks and their complements at luma resolution, plus the 4:2:2 and
/// 4:2:0 downsampled versions, together with the per-mask sign bits.
pub struct WedgeShape {
    pub w: usize,
    pub h: usize,
    pub m444: Vec<u8>,
    pub m422: Vec<u8>,
    pub m420: Vec<u8>,
    pub signs: u32,
}

/// The sign bit of mask `n`.
pub open spec fn spec_sign(signs: u32, n: int) -> int {
    ((signs >> (n as u32)) & 1) as int
}

/// Sample `(y, x)` of the cropped master template selected by codebook
/// entry `cbn` for a `w`×`h` block.
pub open spec fn spec_w444(ms: Seq<Vec<u8>>, cbn: wedge_code_type, w: int, h: int, y: int, x: int) -> u8 {
    let xo = 32 - (w * cbn.x_offset) / 8;
    let yo = 32 - (h * cbn.y_offset) / 8;
    ms[cbn.direction as int]@[(yo + y) * 64 + xo + x]
}

/// A lower region of a strided buffer never overlaps a higher one.
proof fn lemma_region_order(a: int, b: int, st: int)
    requires
        0 <= a < b,
        0 <= st,
    ensures
        a * st + st <= b * st,
{
    assert(a * st + st <= b * st) by (nonlinear_arith)
        requires
            0 <= a < b,
            0 <= st,
    ;
}

/// Build the wedge masks of one block size: crop the sixteen codebook
/// masks out of the master templates, append their complements, and
/// derive the sign-corrected 4:2:2 and 4:2:0 masks of each.
///
/// Mask `n` of the luma set is the codebook crop; mask `16 + n` its
/// complement.  The chroma sets hold, at slot `sign(n)*16 + n`, the
/// round-up downsampling of the sign-selected luma mask, and at the
/// opposite slot the round-down one, so that complementary mask pairs
/// stay complementary after subsampling.
#[verifier::rlimit(100)]
#[verifier::spinoff_prover]
pub fn fill2d_16x2(
    w: usize,
    h: usize,
    masters: &Vec<Vec<u8>>,
    cb: &Vec<wedge_code_type>,
    signs: u32,
) -> (r: WedgeShape)
    requires
        masters.len() == 6,
        forall|d: int| 0 <= d < 6 ==> (#[trigger] masters@[d]).len() == 64 * 64,
        forall|d: int, i: int|
            0 <= d < 6 && 0 <= i < 64 * 64 ==> #[trigger] masters@[d]@[i] <= 64,
        cb.len() == 16,
        forall|n: int|
            0 <= n < 16 ==> (#[trigger] cb@[n]).direction < 6 && (cb@[n].x_offset == 2
                || cb@[n].x_offset == 4 || cb@[n].x_offset == 6) && (cb@[n].y_offset == 2
                || cb@[n].y_offset == 4 || cb@[n].y_offset == 6),
        w == 8 || w == 16 || w == 32,
        h == 8 || h == 16 || h == 32,
    ensures
        r.w == w && r.h == h && r.signs == signs,
        r.m444.len() == 32 * (w * h),
        r.m422.len() == 32 * ((w / 2) * h),
        r.m420.len() == 32 * ((w / 2) * (h / 2)),
        forall|i: int| 0 <= i < 32 * (w * h) ==> #[trigger] r.m444@[i] <= 64,
        forall|n: int, y: int, x: int|
            0 <= n < 16 && 0 <= y < h && 0 <= x < w ==> #[trigger] r.m444@[n * (w * h) + y * w + x]
                == spec_w444(masters@, cb@[n], w as int, h as int, y, x),
        forall|n: int, i: int|
            0 <= n < 16 && 0 <= i < w * h ==> #[trigger] r.m444@[(16 + n) * (w * h) + i] == 64
                - r.m444@[n * (w * h) + i],
        forall|q: int, cy: int, cx: int|
            0 <= q < 32 && 0 <= cy < h && 0 <= cx < w / 2 ==> #[trigger] r.m422@[q * ((w / 2) * h)
                + cy * (w / 2) + cx] == spec_chroma_cell(
                r.m444@,
                (spec_sign(signs, q % 16) * 16 + q % 16) * (w * h),
                if q / 16 == spec_sign(signs, q % 16) {
                    0
                } else {
                    1
                },
                w as int,
                0,
                cy,
                cx,
            ),
        forall|q: int, cy: int, cx: int|
            0 <= q < 32 && 0 <= cy < h / 2 && 0 <= cx < w / 2 ==> #[trigger] r.m420@[q * ((w / 2) * (
            h / 2)) + cy * (w / 2) + cx] == spec_chroma_cell(
                r.m444@,
                (spec_sign(signs, q % 16) * 16 + q % 16) * (w * h),
                if q / 16 == spec_sign(signs, q % 16) {
                    0
                } else {
                    1
                },
                w as int,
                1,
                cy,
                cx,
            ),
{
    proof {
        assert(w * h <= 1024) by (nonlinear_arith)
            requires
                w <= 32,
                h <= 32,
        ;
    }
    let wh = w * h;
    let mut m444: Vec<u8> = Vec::new();
    // The sixteen cropped codebook masks, in codebook order.
    let mut n: usize = 0;
    while n < 16
        invariant
            masters.len() == 6,
            forall|d: int| 0 <= d < 6 ==> (#[trigger] masters@[d]).len() == 64 * 64,
            forall|d: int, i: int|
                0 <= d < 6 && 0 <= i < 64 * 64 ==> #[trigger] masters@[d]@[i] <= 64,
            cb.len() == 16,
            forall|nn: int|
                0 <= nn < 16 ==> (#[trigger] cb@[nn]).direction < 6 && (cb@[nn].x_offset == 2
                    || cb@[nn].x_offset == 4 || cb@[nn].x_offset == 6) && (cb@[nn].y_offset == 2
                    || cb@[nn].y_offset == 4 || cb@[nn].y_offset == 6),
            w == 8 || w == 16 || w == 32,
            h == 8 || h == 16 || h == 32,
            wh == w * h,
            wh <= 1024,
            n <= 16,
            m444.len() == n * wh,
            forall|i: int| 0 <= i < n * wh ==> #[trigger] m444@[i] <= 64,
            forall|nn: int, y: int, x: int|
                0 <= nn < n && 0 <= y < h && 0 <= x < w ==> #[trigger] m444@[nn * wh + y * w + x]
                    == spec_w444(masters@, cb@[nn], w as int, h as int, y, x),
        decreases 16 - n,
    {
        proof {
            assert(w * (cb@[n as int].x_offset as int) <= 192 && h * (cb@[n as int].y_offset
                as int) <= 192) by (nonlinear_arith)
                requires
                    w <= 32,
                    h <= 32,
                    cb@[n as int].x_offset <= 6,
                    cb@[n as int].y_offset <= 6,
            ;
            vstd::arithmetic::div_mod::lemma_div_is_ordered(
                w * (cb@[n as int].x_offset as int),
                192,
                8,
            );
            vstd::arithmetic::div_mod::lemma_div_is_ordered(
                h * (cb@[n as int].y_offset as int),
                192,
                8,
            );
            assert((n + 1) * wh == n * wh + wh) by (nonlinear_arith);
            assert forall|nn: int| 0 <= nn < n implies #[trigger] (nn * wh) + wh <= n * wh by {
                lemma_region_order(nn, n as int, wh as int);
            }
            assert forall|yy: int| 0 <= yy < h implies #[trigger] (yy * w) + w <= h * w by {
                lemma_region_order(yy, h as int, w as int);
            }
        }
        let xo = 32 - w * (cb[n].x_offset as usize) / 8;
        let yo = 32 - h * (cb[n].y_offset as usize) / 8;
        let dir = cb[n].direction as usize;
        let mut y: usize = 0;
        while y < h
            invariant
                masters.len() == 6,
                forall|d: int| 0 <= d < 6 ==> (#[trigger] masters@[d]).len() == 64 * 64,
                forall|d: int, i: int|
                    0 <= d < 6 && 0 <= i < 64 * 64 ==> #[trigger] masters@[d]@[i] <= 64,
                cb.len() == 16,
                n < 16,
                w == 8 || w == 16 || w == 32,
                h == 8 || h == 16 || h == 32,
                wh == w * h,
                xo == 32 - (w * (cb@[n as int].x_offset as int)) / 8,
                yo == 32 - (h * (cb@[n as int].y_offset as int)) / 8,
                xo + w <= 64,
                yo + h <= 64,
                8 <= xo,
                8 <= yo,
                dir == cb@[n as int].direction,
                dir < 6,
                y <= h,
                forall|nn: int| 0 <= nn < n ==> #[trigger] (nn * wh) + wh <= n * wh,
                forall|yy: int| 0 <= yy < h ==> #[trigger] (yy * w) + w <= h * w,
                m444.len() == n * wh + y * w,
                forall|i: int| 0 <= i < n * wh + y * w ==> #[trigger] m444@[i] <= 64,
                forall|nn: int, yy: int, x: int|
                    0 <= nn < n && 0 <= yy < h && 0 <= x < w ==> #[trigger] m444@[nn * wh + yy * w
                        + x] == spec_w444(masters@, cb@[nn], w as int, h as int, yy, x),
                forall|yy: int, x: int|
                    0 <= yy < y && 0 <= x < w ==> #[trigger] m444@[n * wh + yy * w + x]
                        == spec_w444(masters@, cb@[n as int], w as int, h as int, yy, x),
            decreases h - y,
        {
            proof {
                assert(y * w + w <= h * w && (y + 1) * w == y * w + w) by (nonlinear_arith)
                    requires
                        y < h,
                        0 <= w,
                ;
                assert forall|yy: int| 0 <= yy < y implies #[trigger] (yy * w) + w <= y * w by {
                    lemma_region_order(yy, y as int, w as int);
                }
                assert((yo + y) * 64 + xo + w <= 64 * 64) by (nonlinear_arith)
                    requires
                        yo + y < 64,
                        xo + w <= 64,
                ;
            }
            let mut x: usize = 0;
            while x < w
                invariant
                    masters.len() == 6,
                    forall|d: int| 0 <= d < 6 ==> (#[trigger] masters@[d]).len() == 64 * 64,
                    forall|d: int, i: int|
                        0 <= d < 6 && 0 <= i < 64 * 64 ==> #[trigger] masters@[d]@[i] <= 64,
                    cb.len() == 16,
                    n < 16,
                    y < h,
                    x <= w,
                    wh == w * h,
                    y * w + w <= h * w,
                    (y + 1) * w == y * w + w,
                    (yo + y) * 64 + xo + w <= 64 * 64,
                    forall|nn: int| 0 <= nn < n ==> #[trigger] (nn * wh) + wh <= n * wh,
                    forall|yy: int| 0 <= yy < h ==> #[trigger] (yy * w) + w <= h * w,
                    forall|yy: int| 0 <= yy < y ==> #[trigger] (yy * w) + w <= y * w,
                    xo == 32 - (w * (cb@[n as int].x_offset as int)) / 8,
                    yo == 32 - (h * (cb@[n as int].y_offset as int)) / 8,
                    dir == cb@[n as int].direction,
                    dir < 6,
                    m444.len() == n * wh + y * w + x,
                    forall|i: int| 0 <= i < n * wh + y * w + x ==> #[trigger] m444@[i] <= 64,
                    forall|nn: int, yy: int, xx: int|
                        0 <= nn < n && 0 <= yy < h && 0 <= xx < w ==> #[trigger] m444@[nn * wh + yy
                            * w + xx] == spec_w444(masters@, cb@[nn], w as int, h as int, yy, xx),
                    forall|yy: int, xx: int|
                        0 <= yy < y && 0 <= xx < w ==> #[trigger] m444@[n * wh + yy * w + xx]
                            == spec_w444(masters@, cb@[n as int], w as int, h as int, yy, xx),
                    forall|xx: int|
                        0 <= xx < x ==> #[trigger] m444@[n * wh + y * w + xx] == spec_w444(
                            masters@,
                            cb@[n as int],
                            w as int,
                            h as int,
                            y as int,
                            xx,
                        ),
                decreases w - x,
            {
                let v = masters[dir][(yo + y) * 64 + xo + x];
                m444.push(v);
                x += 1;
            }
            proof {
                assert forall|yy: int, xx: int|
                    0 <= yy < y + 1 && 0 <= xx < w implies #[trigger] m444@[n * wh + yy * w + xx]
                    == spec_w444(masters@, cb@[n as int], w as int, h as int, yy, xx) by {
                    if yy < y {
                        assert(m444@[n * wh + yy * w + xx] == spec_w444(
                            masters@,
                            cb@[n as int],
                            w as int,
                            h as int,
                            yy,
                            xx,
                        ));
                    }
                }
            }
            y += 1;
        }
        n += 1;
    }
    // The sixteen complements.
    proof {
        assert forall|nn: int| 0 <= nn < 16 implies #[trigger] (nn * wh) + wh <= 16 * wh by {
            lemma_region_order(nn, 16, wh as int);
        }
        assert forall|yy: int| 0 <= yy < h implies #[trigger] (yy * w) + w <= h * w by {
            lemma_region_order(yy, h as int, w as int);
        }
    }
    let mut n: usize = 0;
    while n < 16
        invariant
            masters.len() == 6,
            forall|d: int| 0 <= d < 6 ==> (#[trigger] masters@[d]).len() == 64 * 64,
            cb.len() == 16,
            w == 8 || w == 16 || w == 32,
            h == 8 || h == 16 || h == 32,
            wh == w * h,
            wh <= 1024,
            n <= 16,
            forall|nn: int| 0 <= nn < 16 ==> #[trigger] (nn * wh) + wh <= 16 * wh,
            forall|yy: int| 0 <= yy < h ==> #[trigger] (yy * w) + w <= h * w,
            forall|nn: int, y: int, x: int|
                0 <= nn < 16 && 0 <= y < h && 0 <= x < w ==> #[trigger] m444@[nn * wh + y * w + x]
                    == spec_w444(masters@, cb@[nn], w as int, h as int, y, x),
            m444.len() == 16 * wh + n * wh,
            forall|i: int| 0 <= i < 16 * wh + n * wh ==> #[trigger] m444@[i] <= 64,
            forall|nn: int, i: int|
                0 <= nn < n && 0 <= i < wh ==> #[trigger] m444@[(16 + nn) * wh + i] == 64 - m444@[nn
                    * wh + i],
        decreases 16 - n,
    {
        proof {
            assert((16 + n) * wh == 16 * wh + n * wh && (16 + n + 1) * wh == 16 * wh + n * wh + wh
                && (n + 1) * wh == n * wh + wh && n * wh + wh <= 16 * wh) by (nonlinear_arith)
                requires
                    0 <= n < 16,
                    0 <= wh,
            ;
            assert forall|nn: int| 0 <= nn < n implies #[trigger] ((16 + nn) * wh) + wh <= (16 + n)
                * wh && (nn * wh) + wh <= n * wh by {
                lemma_region_order(16 + nn, 16 + n, wh as int);
                lemma_region_order(nn, n as int, wh as int);
            }
        }
        let mut i: usize = 0;
        while i < wh
            invariant
                wh <= 1024,
                n < 16,
                i <= wh,
                (16 + n) * wh == 16 * wh + n * wh,
                (n + 1) * wh == n * wh + wh,
                n * wh + wh <= 16 * wh,
                forall|nn: int|
                    0 <= nn < n ==> #[trigger] ((16 + nn) * wh) + wh <= (16 + n) * wh && (nn * wh)
                        + wh <= n * wh,
                masters.len() == 6,
                cb.len() == 16,
                w == 8 || w == 16 || w == 32,
                h == 8 || h == 16 || h == 32,
                wh == w * h,
                forall|nn2: int| 0 <= nn2 < 16 ==> #[trigger] (nn2 * wh) + wh <= 16 * wh,
                forall|yy: int| 0 <= yy < h ==> #[trigger] (yy * w) + w <= h * w,
                forall|nn2: int, y: int, x: int|
                    0 <= nn2 < 16 && 0 <= y < h && 0 <= x < w ==> #[trigger] m444@[nn2 * wh + y * w
                        + x] == spec_w444(masters@, cb@[nn2], w as int, h as int, y, x),
                m444.len() == (16 + n) * wh + i,
                forall|k: int| 0 <= k < (16 + n) * wh + i ==> #[trigger] m444@[k] <= 64,
                forall|nn: int, ii: int|
                    0 <= nn < n && 0 <= ii < wh ==> #[trigger] m444@[(16 + nn) * wh + ii] == 64
                        - m444@[nn * wh + ii],
                forall|ii: int|
                    0 <= ii < i ==> #[trigger] m444@[(16 + n) * wh + ii] == 64 - m444@[n * wh + ii],
            decreases wh - i,
        {
            let v = m444[n * wh + i];
            m444.push(64 - v);
            i += 1;
        }
        n += 1;
    }
    let m422 = fill_chroma(w, h, &m444, signs, 0);
    let m420 = fill_chroma(w, h, &m444, signs, 1);
    WedgeShape { w, h, m444, m422, m420, signs }
}

/// Chroma mask rows for a luma height under vertical subsampling.
pub open spec fn spec_crows(h: int, ss_ver: int) -> int {
    if ss_ver == 1 {
        h / 2
    } else {
        h
    }
}

/// Build one chroma mask family (4:2:2 for `ss_ver == 0`, 4:2:0 for
/// `ss_ver == 1`) from a complete luma family: for every slot `q`, the
/// downsampling of the sign-selected luma mask `sign(q%16)*16 + q%16`,
/// rounded up in the matching sign slot and down in the opposite one.
#[verifier::rlimit(100)]
#[verifier::spinoff_prover]
pub fn fill_chroma(w: usize, h: usize, m444: &Vec<u8>, signs: u32, ss_ver: usize) -> (r: Vec<u8>)
    requires
        w == 8 || w == 16 || w == 32,
        h == 8 || h == 16 || h == 32,
        ss_ver <= 1,
        m444.len() == 32 * (w * h),
        forall|i: int| 0 <= i < 32 * (w * h) ==> #[trigger] m444@[i] <= 64,
    ensures
        r.len() == 32 * ((w / 2) * spec_crows(h as int, ss_ver as int)),
        forall|q: int, cy: int, cx: int|
            0 <= q < 32 && 0 <= cy < spec_crows(h as int, ss_ver as int) && 0 <= cx < w / 2
                ==> #[trigger] r@[q * ((w / 2) * spec_crows(h as int, ss_ver as int)) + cy * (w / 2)
                + cx] == spec_chroma_cell(
                m444@,
                (spec_sign(signs, q % 16) * 16 + q % 16) * (w * h),
                if q / 16 == spec_sign(signs, q % 16) {
                    0
                } else {
                    1
                },
                w as int,
                ss_ver as int,
                cy,
                cx,
            ),
{
    proof {
        assert(w * h <= 1024) by (nonlinear_arith)
            requires
                w <= 32,
                h <= 32,
        ;
    }
    let wh = w * h;
    let w2 = w / 2;
    let rows: usize = if ss_ver == 1 {
        h / 2
    } else {
        h
    };
    proof {
        assert(w2 * rows <= 512 && w2 * rows == rows * w2) by (nonlinear_arith)
            requires
                w2 <= 16,
                rows <= 32,
        ;
    }
    let st = w2 * rows;
    let step = 1 + ss_ver;
    let d: u16 = if ss_ver == 1 {
        4
    } else {
        2
    };
    let mut out: Vec<u8> = Vec::new();
    let mut q: usize = 0;
    while q < 32
        invariant
            w == 8 || w == 16 || w == 32,
            h == 8 || h == 16 || h == 32,
            ss_ver <= 1,
            wh == w * h,
            wh <= 1024,
            w2 == w / 2,
            rows == (if ss_ver == 1 {
                h as int / 2
            } else {
                h as int
            }),
            rows <= h,
            st == w2 * rows,
            st == (w / 2) * (if ss_ver == 1 {
                h as int / 2
            } else {
                h as int
            }),
            st <= 512,
            step == 1 + ss_ver,
            d == (if ss_ver == 1 {
                4u16
            } else {
                2u16
            }),
            m444.len() == 32 * wh,
            forall|i: int| 0 <= i < 32 * wh ==> #[trigger] m444@[i] <= 64,
            q <= 32,
            out.len() == q * st,
            forall|qq: int, cy: int, cx: int|
                0 <= qq < q && 0 <= cy < rows && 0 <= cx < w2 ==> #[trigger] out@[qq * st + cy * w2
                    + cx] == spec_chroma_cell(
                    m444@,
                    (spec_sign(signs, qq % 16) * 16 + qq % 16) * wh,
                    if qq / 16 == spec_sign(signs, qq % 16) {
                        0
                    } else {
                        1
                    },
                    w as int,
                    ss_ver as int,
                    cy,
                    cx,
                ),
        decreases 32 - q,
    {
        let n = q % 16;
        let sgn: u32 = (signs >> n) & 1;
        proof {
            assert((signs >> ((q % 16) as u32)) & 1 <= 1) by (bit_vector);
            assert((q + 1) * st == q * st + st) by (nonlinear_arith);
            assert(w2 * rows == rows * w2) by (nonlinear_arith);
            assert forall|qq: int| 0 <= qq < q implies #[trigger] (qq * st) + st <= q * st by {
                lemma_region_order(qq, q as int, st as int);
            }
            assert forall|yy: int| 0 <= yy < rows implies #[trigger] (yy * w2) + w2 <= rows
                * w2 by {
                lemma_region_order(yy, rows as int, w2 as int);
            }
            assert(((sgn as int) * 16 + n) * wh + wh <= 32 * wh) by (nonlinear_arith)
                requires
                    sgn <= 1,
                    n == q % 16,
                    0 <= q % 16 < 16,
                    0 <= wh,
            ;
        }
        let src_off = ((sgn as usize) * 16 + n) * wh;
        let bias: u16 = if q / 16 == sgn as usize {
            0
        } else {
            1
        };
        let mut cy: usize = 0;
        while cy < rows
            invariant
                w == 8 || w == 16 || w == 32,
                h == 8 || h == 16 || h == 32,
                ss_ver <= 1,
                wh == w * h,
                w2 == w / 2,
                rows == (if ss_ver == 1 {
                    h as int / 2
                } else {
                    h as int
                }),
                rows <= h,
                st == w2 * rows,
                step == 1 + ss_ver,
                d == (if ss_ver == 1 {
                    4u16
                } else {
                    2u16
                }),
                m444.len() == 32 * wh,
                forall|i: int| 0 <= i < 32 * wh ==> #[trigger] m444@[i] <= 64,
                q < 32,
                n == q % 16,
                sgn <= 1,
                sgn == spec_sign(signs, (q % 16) as int),
                src_off == ((sgn as int) * 16 + n) * wh,
                src_off + wh <= 32 * wh,
                bias == (if q / 16 == spec_sign(signs, (q % 16) as int) {
                    0u16
                } else {
                    1u16
                }),
                cy <= rows,
                st == rows * w2,
                forall|qq: int| 0 <= qq < q ==> #[trigger] (qq * st) + st <= q * st,
                forall|yy: int| 0 <= yy < rows ==> #[trigger] (yy * w2) + w2 <= rows * w2,
                out.len() == q * st + cy * w2,
                forall|qq: int, yy: int, cx: int|
                    0 <= qq < q && 0 <= yy < rows && 0 <= cx < w2 ==> #[trigger] out@[qq * st + yy
                        * w2 + cx] == spec_chroma_cell(
                        m444@,
                        (spec_sign(signs, qq % 16) * 16 + qq % 16) * wh,
                        if qq / 16 == spec_sign(signs, qq % 16) {
                            0
                        } else {
                            1
                        },
                        w as int,
                        ss_ver as int,
                        yy,
                        cx,
                    ),
                forall|yy: int, cx: int|
                    0 <= yy < cy && 0 <= cx < w2 ==> #[trigger] out@[q * st + yy * w2 + cx]
                        == spec_chroma_cell(
                        m444@,
                        src_off as int,
                        bias as int,
                        w as int,
                        ss_ver as int,
                        yy,
                        cx,
                    ),
            decreases rows - cy,
        {
            proof {
                assert(cy * w2 + w2 <= rows * w2 && (cy + 1) * w2 == cy * w2 + w2 && rows * w2 == w2
                    * rows) by (nonlinear_arith)
                    requires
                        cy < rows,
                        0 <= w2,
                        0 <= rows,
                ;
                assert(rows * step <= h) by (nonlinear_arith)
                    requires
                        rows == (if ss_ver == 1 {
                            h as int / 2
                        } else {
                            h as int
                        }),
                        step == 1 + ss_ver,
                        ss_ver <= 1,
                        h % 2 == 0 || ss_ver == 0,
                ;
                assert((cy * step) * w + step * w <= h * w) by (nonlinear_arith)
                    requires
                        cy < rows,
                        rows * step <= h,
                        0 <= w,
                        1 <= step,
                ;
                assert(w <= step * w) by (nonlinear_arith)
                    requires
                        1 <= step,
                        0 <= w,
                ;
                assert forall|yy: int| 0 <= yy < cy implies #[trigger] (yy * w2) + w2 <= cy
                    * w2 by {
                    lemma_region_order(yy, cy as int, w2 as int);
                }
            }
            let lb = src_off + (cy * step) * w;
            let mut cx: usize = 0;
            while cx < w2
                invariant
                    w == 8 || w == 16 || w == 32,
                    h == 8 || h == 16 || h == 32,
                    ss_ver <= 1,
                    wh == w * h,
                    w2 == w / 2,
                    step == 1 + ss_ver,
                    d == (if ss_ver == 1 {
                        4u16
                    } else {
                        2u16
                    }),
                    m444.len() == 32 * wh,
                    forall|i: int| 0 <= i < 32 * wh ==> #[trigger] m444@[i] <= 64,
                    q < 32,
                    cy < rows,
                    cx <= w2,
                    lb == src_off + (cy * step) * w,
                    (cy * step) * w + step * w <= h * w,
                    w <= step * w,
                    (cy + 1) * w2 == cy * w2 + w2,
                    src_off + wh <= 32 * wh,
                    src_off == ((sgn as int) * 16 + (q % 16)) * wh,
                    sgn == spec_sign(signs, (q % 16) as int),
                    bias == (if q / 16 == spec_sign(signs, (q % 16) as int) {
                        0u16
                    } else {
                        1u16
                    }),
                    st == rows * w2,
                    rows == (if ss_ver == 1 {
                        h as int / 2
                    } else {
                        h as int
                    }),
                    cy < rows,
                    forall|qq: int| 0 <= qq < q ==> #[trigger] (qq * st) + st <= q * st,
                    forall|yy: int| 0 <= yy < rows ==> #[trigger] (yy * w2) + w2 <= rows * w2,
                    forall|yy: int| 0 <= yy < cy ==> #[trigger] (yy * w2) + w2 <= cy * w2,
                    out.len() == q * st + cy * w2 + cx,
                    forall|qq: int, yy: int, xx: int|
                        0 <= qq < q && 0 <= yy < rows && 0 <= xx < w2 ==> #[trigger] out@[qq * st
                            + yy * w2 + xx] == spec_chroma_cell(
                            m444@,
                            (spec_sign(signs, qq % 16) * 16 + qq % 16) * wh,
                            if qq / 16 == spec_sign(signs, qq % 16) {
                                0
                            } else {
                                1
                            },
                            w as int,
                            ss_ver as int,
                            yy,
                            xx,
                        ),
                    forall|yy: int, xx: int|
                        0 <= yy < cy && 0 <= xx < w2 ==> #[trigger] out@[q * st + yy * w2 + xx]
                            == spec_chroma_cell(
                            m444@,
                            src_off as int,
                            bias as int,
                            w as int,
                            ss_ver as int,
                            yy,
                            xx,
                        ),
                    forall|xx: int|
                        0 <= xx < cx ==> #[trigger] out@[q * st + cy * w2 + xx] == spec_chroma_cell(
                            m444@,
                            src_off as int,
                            bias as int,
                            w as int,
                            ss_ver as int,
                            cy as int,
                            xx,
                        ),
                decreases w2 - cx,
            {
                proof {
                    assert(2 * cx + 1 < w) by (nonlinear_arith)
                        requires
                            cx < w2,
                            w2 == w / 2,
                            w % 2 == 0,
                            2 <= w,
                    ;
                }
                let mut sum: u16 = m444[lb + 2 * cx] as u16 + m444[lb + 2 * cx + 1] as u16 + 1;
                if ss_ver == 1 {
                    proof {
                        assert(step * w == 2 * w);
                    }
                    sum = sum + m444[lb + w + 2 * cx] as u16 + m444[lb + w + 2 * cx + 1] as u16 + 1;
                }
                out.push(((sum - bias) / d) as u8);
                cx += 1;
            }
            proof {
                assert forall|yy: int, xx: int|
                    0 <= yy < cy + 1 && 0 <= xx < w2 implies #[trigger] out@[q * st + yy * w2 + xx]
                    == spec_chroma_cell(
                    m444@,
                    src_off as int,
                    bias as int,
                    w as int,
                    ss_ver as int,
                    yy,
                    xx,
                ) by {
                    if yy < cy {
                        assert(out@[q * st + yy * w2 + xx] == spec_chroma_cell(
                            m444@,
                            src_off as int,
                            bias as int,
                            w as int,
                            ss_ver as int,
                            yy,
                            xx,
                        ));
                    }
                }
            }
            cy += 1;
        }
        q += 1;
    }
    proof {
        assert(32 * st == 32 * ((w / 2) * spec_crows(h as int, ss_ver as int)));
    }
    out
}


/// The three eight-sample border profiles the master templates are drawn
/// from: the odd and even scanline profiles of the oblique edge and the
/// vertical edge profile.
pub open spec fn spec_master_border(kind: int, i: int) -> u8 {
    if kind == 0 {
        // odd scanlines of the oblique edge
        if i == 0 {
            1
        } else if i == 1 {
            2
        } else if i == 2 {
            6
        } else if i == 3 {
            18
        } else if i == 4 {
            37
        } else if i == 5 {
            53
        } else if i == 6 {
            60
        } else {
            63
        }
    } else if kind == 1 {
        // even scanlines of the oblique edge
        if i == 0 {
            1
        } else if i == 1 {
            4
        } else if i == 2 {
            11
        } else if i == 3 {
            27
        } else if i == 4 {
            46
        } else if i == 5 {
            58
        } else if i == 6 {
            62
        } else {
            63
        }
    } else {
        // the vertical edge
        if i == 0 {
            0
        } else if i == 1 {
            2
        } else if i == 2 {
            7
        } else if i == 3 {
            21
        } else if i == 4 {
            43
        } else if i == 5 {
            57
        } else if i == 6 {
            62
        } else {
            64
        }
    }
}

/// One border profile as a sequence.
pub open spec fn spec_profile(kind: int) -> Seq<u8> {
    Seq::new(8, |i: int| spec_master_border(kind, i))
}

/// One cell of the 63-degree oblique master template: even scanlines use
/// the even profile, odd scanlines the odd one, and the centre drifts
/// left by one column per scanline pair.
pub open spec fn spec_oblique_cell(y: int, x: int) -> u8 {
    spec_border_cell(
        spec_profile(
            if y % 2 == 0 {
                1int
            } else {
                0int
            },
        ),
        (if y % 2 == 0 {
            48int
        } else {
            47int
        }) - y / 2,
        x,
        0,
    )
}

/// One cell of master template `d`: the vertical and oblique templates
/// are drawn directly, and the rest are their transposes and mirrors.
pub open spec fn spec_master_cell(d: int, y: int, x: int) -> u8 {
    if d == 0 {
        // horizontal: the vertical template transposed
        spec_border_cell(spec_profile(2), 32, y, 0)
    } else if d == 1 {
        // vertical
        spec_border_cell(spec_profile(2), 32, x, 0)
    } else if d == 2 {
        // 27 degrees: the 63-degree template transposed
        spec_oblique_cell(x, y)
    } else if d == 3 {
        // 63 degrees
        spec_oblique_cell(y, x)
    } else if d == 4 {
        // 117 degrees: 63 degrees mirrored
        spec_oblique_cell(y, 63 - x)
    } else {
        // 153 degrees: 27 degrees mirrored
        spec_oblique_cell(63 - x, y)
    }
}

/// Materialise one border profile.
pub fn wedge_master_border(kind: usize) -> (r: Vec<u8>)
    requires
        kind < 3,
    ensures
        r.len() == 8,
        forall|i: int| 0 <= i < 8 ==> #[trigger] r@[i] == spec_master_border(kind as int, i),
        forall|i: int| 0 <= i < 8 ==> #[trigger] r@[i] <= 64,
{
    let mut v: Vec<u8> = Vec::new();
    if kind == 0 {
        v.push(1);
        v.push(2);
        v.push(6);
        v.push(18);
        v.push(37);
        v.push(53);
        v.push(60);
        v.push(63);
    } else if kind == 1 {
        v.push(1);
        v.push(4);
        v.push(11);
        v.push(27);
        v.push(46);
        v.push(58);
        v.push(62);
        v.push(63);
    } else {
        v.push(0);
        v.push(2);
        v.push(7);
        v.push(21);
        v.push(43);
        v.push(57);
        v.push(62);
        v.push(64);
    }
    v
}

/// A wedge codebook of sixteen entries with in-range directions and
/// offsets.
pub open spec fn codebook_ok(cb: Vec<wedge_code_type>) -> bool {
    &&& cb.len() == 16
    &&& forall|n: int|
        0 <= n < 16 ==> (#[trigger] cb@[n]).direction < 6 && (cb@[n].x_offset == 2
            || cb@[n].x_offset == 4 || cb@[n].x_offset == 6) && (cb@[n].y_offset == 2
            || cb@[n].y_offset == 4 || cb@[n].y_offset == 6)
}

/// Entry `n` of wedge codebook `cbk` (0 for square blocks, 1 for blocks
/// wider than tall, 2 for blocks taller than wide).  The three books
/// differ only in entries 4 through 7.
pub open spec fn spec_codebook_entry(cbk: int, n: int) -> wedge_code_type {
    if n == 0 {
        wedge_code_type { direction: 2, x_offset: 4, y_offset: 4 }
    } else if n == 1 {
        wedge_code_type { direction: 3, x_offset: 4, y_offset: 4 }
    } else if n == 2 {
        wedge_code_type { direction: 4, x_offset: 4, y_offset: 4 }
    } else if n == 3 {
        wedge_code_type { direction: 5, x_offset: 4, y_offset: 4 }
    } else if n == 4 {
        if cbk == 1 {
            wedge_code_type { direction: 1, x_offset: 2, y_offset: 4 }
        } else {
            wedge_code_type { direction: 0, x_offset: 4, y_offset: 2 }
        }
    } else if n == 5 {
        if cbk == 0 {
            wedge_code_type { direction: 0, x_offset: 4, y_offset: 6 }
        } else if cbk == 1 {
            wedge_code_type { direction: 1, x_offset: 4, y_offset: 4 }
        } else {
            wedge_code_type { direction: 0, x_offset: 4, y_offset: 4 }
        }
    } else if n == 6 {
        if cbk == 0 {
            wedge_code_type { direction: 1, x_offset: 2, y_offset: 4 }
        } else if cbk == 1 {
            wedge_code_type { direction: 1, x_offset: 6, y_offset: 4 }
        } else {
            wedge_code_type { direction: 0, x_offset: 4, y_offset: 6 }
        }
    } else if n == 7 {
        if cbk == 0 {
            wedge_code_type { direction: 1, x_offset: 6, y_offset: 4 }
        } else if cbk == 1 {
            wedge_code_type { direction: 0, x_offset: 4, y_offset: 4 }
        } else {
            wedge_code_type { direction: 1, x_offset: 4, y_offset: 4 }
        }
    } else if n == 8 {
        wedge_code_type { direction: 2, x_offset: 4, y_offset: 2 }
    } else if n == 9 {
        wedge_code_type { direction: 2, x_offset: 4, y_offset: 6 }
    } else if n == 10 {
        wedge_code_type { direction: 5, x_offset: 4, y_offset: 2 }
    } else if n == 11 {
        wedge_code_type { direction: 5, x_offset: 4, y_offset: 6 }
    } else if n == 12 {
        wedge_code_type { direction: 3, x_offset: 2, y_offset: 4 }
    } else if n == 13 {
        wedge_code_type { direction: 3, x_offset: 6, y_offset: 4 }
    } else if n == 14 {
        wedge_code_type { direction: 4, x_offset: 2, y_offset: 4 }
    } else {
        wedge_code_type { direction: 4, x_offset: 6, y_offset: 4 }
    }
}

/// The codebook for blocks taller than wide.
pub fn wedge_codebook_16_hgtw() -> (r: Vec<wedge_code_type>)
    ensures
        codebook_ok(r),
        forall|n: int| 0 <= n < 16 ==> #[trigger] r@[n] == spec_codebook_entry(2, n),
{
    let mut v: Vec<wedge_code_type> = Vec::new();
    v.push(wedge_code_type::new(4, 4, WEDGE_OBLIQUE27));
    v.push(wedge_code_type::new(4, 4, WEDGE_OBLIQUE63));
    v.push(wedge_code_type::new(4, 4, WEDGE_OBLIQUE117));
    v.push(wedge_code_type::new(4, 4, WEDGE_OBLIQUE153));
    v.push(wedge_code_type::new(4, 2, WEDGE_HORIZONTAL));
    v.push(wedge_code_type::new(4, 4, WEDGE_HORIZONTAL));
    v.push(wedge_code_type::new(4, 6, WEDGE_HORIZONTAL));
    v.push(wedge_code_type::new(4, 4, WEDGE_VERTICAL));
    v.push(wedge_code_type::new(4, 2, WEDGE_OBLIQUE27));
    v.push(wedge_code_type::new(4, 6, WEDGE_OBLIQUE27));
    v.push(wedge_code_type::new(4, 2, WEDGE_OBLIQUE153));
    v.push(wedge_code_type::new(4, 6, WEDGE_OBLIQUE153));
    v.push(wedge_code_type::new(2, 4, WEDGE_OBLIQUE63));
    v.push(wedge_code_type::new(6, 4, WEDGE_OBLIQUE63));
    v.push(wedge_code_type::new(2, 4, WEDGE_OBLIQUE117));
    v.push(wedge_code_type::new(6, 4, WEDGE_OBLIQUE117));
    v
}

/// The codebook for blocks wider than tall.
pub fn wedge_codebook_16_hltw() -> (r: Vec<wedge_code_type>)
    ensures
        codebook_ok(r),
        forall|n: int| 0 <= n < 16 ==> #[trigger] r@[n] == spec_codebook_entry(1, n),
{
    let mut v: Vec<wedge_code_type> = Vec::new();
    v.push(wedge_code_type::new(4, 4, WEDGE_OBLIQUE27));
    v.push(wedge_code_type::new(4, 4, WEDGE_OBLIQUE63));
    v.push(wedge_code_type::new(4, 4, WEDGE_OBLIQUE117));
    v.push(wedge_code_type::new(4, 4, WEDGE_OBLIQUE153));
    v.push(wedge_code_type::new(2, 4, WEDGE_VERTICAL));
    v.push(wedge_code_type::new(4, 4, WEDGE_VERTICAL));
    v.push(wedge_code_type::new(6, 4, WEDGE_VERTICAL));
    v.push(wedge_code_type::new(4, 4, WEDGE_HORIZONTAL));
    v.push(wedge_code_type::new(4, 2, WEDGE_OBLIQUE27));
    v.push(wedge_code_type::new(4, 6, WEDGE_OBLIQUE27));
    v.push(wedge_code_type::new(4, 2, WEDGE_OBLIQUE153));
    v.push(wedge_code_type::new(4, 6, WEDGE_OBLIQUE153));
    v.push(wedge_code_type::new(2, 4, WEDGE_OBLIQUE63));
    v.push(wedge_code_type::new(6, 4, WEDGE_OBLIQUE63));
    v.push(wedge_code_type::new(2, 4, WEDGE_OBLIQUE117));
    v.push(wedge_code_type::new(6, 4, WEDGE_OBLIQUE117));
    v
}

/// The codebook for square blocks.
pub fn wedge_codebook_16_heqw() -> (r: Vec<wedge_code_type>)
    ensures
        codebook_ok(r),
        forall|n: int| 0 <= n < 16 ==> #[trigger] r@[n] == spec_codebook_entry(0, n),
{
    let mut v: Vec<wedge_code_type> = Vec::new();
    v.push(wedge_code_type::new(4, 4, WEDGE_OBLIQUE27));
    v.push(wedge_code_type::new(4, 4, WEDGE_OBLIQUE63));
    v.push(wedge_code_type::new(4, 4, WEDGE_OBLIQUE117));
    v.push(wedge_code_type::new(4, 4, WEDGE_OBLIQUE153));
    v.push(wedge_code_type::new(4, 2, WEDGE_HORIZONTAL));
    v.push(wedge_code_type::new(4, 6, WEDGE_HORIZONTAL));
    v.push(wedge_code_type::new(2, 4, WEDGE_VERTICAL));
    v.push(wedge_code_type::new(6, 4, WEDGE_VERTICAL));
    v.push(wedge_code_type::new(4, 2, WEDGE_OBLIQUE27));
    v.push(wedge_code_type::new(4, 6, WEDGE_OBLIQUE27));
    v.push(wedge_code_type::new(4, 2, WEDGE_OBLIQUE153));
    v.push(wedge_code_type::new(4, 6, WEDGE_OBLIQUE153));
    v.push(wedge_code_type::new(2, 4, WEDGE_OBLIQUE63));
    v.push(wedge_code_type::new(6, 4, WEDGE_OBLIQUE63));
    v.push(wedge_code_type::new(2, 4, WEDGE_OBLIQUE117));
    v.push(wedge_code_type::new(6, 4, WEDGE_OBLIQUE117));
    v
}

/// Every cell of a 64×64 template stays within the mask weight range.
proof fn lemma_template_cells_bounded(m: Seq<u8>)
    requires
        m.len() == 64 * 64,
        forall|y: int, x: int| 0 <= y < 64 && 0 <= x < 64 ==> #[trigger] m[y * 64 + x] <= 64,
    ensures
        forall|i: int| 0 <= i < 64 * 64 ==> #[trigger] m[i] <= 64,
{
    assert forall|i: int| 0 <= i < 64 * 64 implies #[trigger] m[i] <= 64 by {
        vstd::arithmetic::div_mod::lemma_fundamental_div_mod(i, 64);
        vstd::arithmetic::div_mod::lemma_div_is_ordered(i, 64 * 64 - 1, 64);
        assert((64 * 64 - 1) / 64 == 63);
        let y = i / 64;
        let x = i % 64;
        assert(m[y * 64 + x] <= 64);
    }
}

/// Build the six 64×64 master templates, indexed by wedge direction.
#[verifier::rlimit(100)]
#[verifier::spinoff_prover]
pub fn build_wedge_masters() -> (r: Vec<Vec<u8>>)
    ensures
        r.len() == 6,
        forall|d: int| 0 <= d < 6 ==> (#[trigger] r@[d]).len() == 64 * 64,
        forall|d: int, i: int| 0 <= d < 6 && 0 <= i < 64 * 64 ==> #[trigger] r@[d]@[i] <= 64,
        forall|d: int, y: int, x: int|
            0 <= d < 6 && 0 <= y < 64 && 0 <= x < 64 ==> #[trigger] r@[d]@[y * 64 + x]
                == spec_master_cell(d, y, x),
{
    let border_odd = wedge_master_border(0);
    let border_even = wedge_master_border(1);
    let border_vert = wedge_master_border(2);
    let mut master_v: Vec<u8> = Vec::new();
    let mut i: usize = 0;
    while i < 4096
        invariant
            master_v.len() == i,
            i <= 4096,
            forall|k: int| 0 <= k < i ==> #[trigger] master_v@[k] == 0,
        decreases 4096 - i,
    {
        master_v.push(0);
        i += 1;
    }
    let mut master_o63: Vec<u8> = master_v.clone();
    proof {
        assert(master_o63@ =~= master_v@);
    }
    // the vertical master: the same profile on every scanline
    proof {
        assert(border_vert@ =~= spec_profile(2));
    }
    let mut y: usize = 0;
    while y < 64
        invariant
            master_v.len() == 64 * 64,
            border_vert.len() == 8,
            border_vert@ == spec_profile(2),
            forall|i2: int| 0 <= i2 < 8 ==> #[trigger] border_vert@[i2] <= 64,
            y <= 64,
            forall|k: int| 0 <= k < 64 * 64 ==> #[trigger] master_v@[k] <= 64,
            forall|yy: int, x: int|
                0 <= yy < y && 0 <= x < 64 ==> #[trigger] master_v@[yy * 64 + x]
                    == spec_master_cell(1, yy, x),
        decreases 64 - y,
    {
        let ghost mv_pre = master_v@;
        insert_border(&mut master_v, y, &border_vert, 32);
        proof {
            assert forall|k: int| 0 <= k < 64 * 64 implies #[trigger] master_v@[k] <= 64 by {
                if y * 64 <= k < y * 64 + 64 {
                    assert(master_v@[y * 64 + (k - y * 64)] == spec_border_cell(
                        border_vert@,
                        32,
                        k - y * 64,
                        mv_pre[y * 64 + (k - y * 64)],
                    ));
                }
            }
            assert forall|yy: int, x: int|
                0 <= yy < y + 1 && 0 <= x < 64 implies #[trigger] master_v@[yy * 64 + x]
                == spec_master_cell(1, yy, x) by {
                if yy == y {
                    assert(master_v@[y * 64 + x] == spec_border_cell(
                        border_vert@,
                        32,
                        x,
                        mv_pre[y * 64 + x],
                    ));
                } else {
                    assert(master_v@[yy * 64 + x] == mv_pre[yy * 64 + x]);
                    assert(mv_pre[yy * 64 + x] == spec_master_cell(1, yy, x));
                }
            }
        }
        y += 1;
    }
    // the oblique master: alternating profiles, drifting left every pair
    proof {
        assert(border_odd@ =~= spec_profile(0));
        assert(border_even@ =~= spec_profile(1));
    }
    let mut y: usize = 0;
    let mut ctr: usize = 48;
    while y < 64
        invariant
            master_o63.len() == 64 * 64,
            border_odd.len() == 8,
            border_even.len() == 8,
            border_odd@ == spec_profile(0),
            border_even@ == spec_profile(1),
            forall|i2: int| 0 <= i2 < 8 ==> #[trigger] border_odd@[i2] <= 64,
            forall|i2: int| 0 <= i2 < 8 ==> #[trigger] border_even@[i2] <= 64,
            y <= 64,
            y % 2 == 0,
            ctr == 48 - y / 2,
            forall|k: int| 0 <= k < 64 * 64 ==> #[trigger] master_o63@[k] <= 64,
            forall|yy: int, x: int|
                0 <= yy < y && 0 <= x < 64 ==> #[trigger] master_o63@[yy * 64 + x]
                    == spec_oblique_cell(yy, x),
        decreases 64 - y,
    {
        let ghost mo_pre = master_o63@;
        insert_border(&mut master_o63, y, &border_even, ctr);
        proof {
            assert forall|k: int| 0 <= k < 64 * 64 implies #[trigger] master_o63@[k] <= 64 by {
                if y * 64 <= k < y * 64 + 64 {
                    assert(master_o63@[y * 64 + (k - y * 64)] == spec_border_cell(
                        border_even@,
                        ctr as int,
                        k - y * 64,
                        mo_pre[y * 64 + (k - y * 64)],
                    ));
                }
            }
        }
        let ghost mo_pre2 = master_o63@;
        insert_border(&mut master_o63, y + 1, &border_odd, ctr - 1);
        proof {
            assert forall|k: int| 0 <= k < 64 * 64 implies #[trigger] master_o63@[k] <= 64 by {
                if (y + 1) * 64 <= k < (y + 1) * 64 + 64 {
                    assert(master_o63@[(y + 1) * 64 + (k - (y + 1) * 64)] == spec_border_cell(
                        border_odd@,
                        ctr - 1,
                        k - (y + 1) * 64,
                        mo_pre2[(y + 1) * 64 + (k - (y + 1) * 64)],
                    ));
                }
            }
            assert((y + 1) as int % 2 == 1 && (y + 1) as int / 2 == y as int / 2);
            assert forall|yy: int, x: int|
                0 <= yy < y + 2 && 0 <= x < 64 implies #[trigger] master_o63@[yy * 64 + x]
                == spec_oblique_cell(yy, x) by {
                if yy == y + 1 {
                    assert(master_o63@[(y + 1) * 64 + x] == spec_border_cell(
                        border_odd@,
                        ctr - 1,
                        x,
                        mo_pre2[(y + 1) * 64 + x],
                    ));
                } else if yy == y {
                    assert(master_o63@[yy * 64 + x] == mo_pre2[yy * 64 + x]);
                    assert(mo_pre2[y * 64 + x] == spec_border_cell(
                        border_even@,
                        ctr as int,
                        x,
                        mo_pre[y * 64 + x],
                    ));
                } else {
                    assert(master_o63@[yy * 64 + x] == mo_pre2[yy * 64 + x]);
                    assert(mo_pre2[yy * 64 + x] == mo_pre[yy * 64 + x]);
                    assert(mo_pre[yy * 64 + x] == spec_oblique_cell(yy, x));
                }
            }
        }
        y += 2;
        ctr -= 1;
    }
    let master_o27 = transposed(&master_o63);
    let master_h = transposed(&master_v);
    let master_o117 = hflip(&master_o63);
    let master_o153 = hflip(&master_o27);
    proof {
        assert forall|yy: int, xx: int|
            0 <= yy < 64 && 0 <= xx < 64 implies #[trigger] master_o27@[yy * 64 + xx]
            == spec_master_cell(2, yy, xx) by {
            assert(master_o27@[yy * 64 + xx] == master_o63@[xx * 64 + yy]);
        }
        assert forall|yy: int, xx: int|
            0 <= yy < 64 && 0 <= xx < 64 implies #[trigger] master_h@[yy * 64 + xx]
            == spec_master_cell(0, yy, xx) by {
            assert(master_h@[yy * 64 + xx] == master_v@[xx * 64 + yy]);
        }
        assert forall|yy: int, xx: int|
            0 <= yy < 64 && 0 <= xx < 64 implies #[trigger] master_o117@[yy * 64 + xx]
            == spec_master_cell(4, yy, xx) by {
            assert(master_o117@[yy * 64 + xx] == master_o63@[yy * 64 + 63 - xx]);
            assert(master_o63@[yy * 64 + (63 - xx)] == spec_oblique_cell(yy, 63 - xx));
        }
        assert forall|yy: int, xx: int|
            0 <= yy < 64 && 0 <= xx < 64 implies #[trigger] master_o153@[yy * 64 + xx]
            == spec_master_cell(5, yy, xx) by {
            assert(master_o153@[yy * 64 + xx] == master_o27@[yy * 64 + 63 - xx]);
            assert(master_o27@[yy * 64 + (63 - xx)] == spec_master_cell(2, yy, 63 - xx));
        }
        lemma_template_cells_bounded(master_v@);
        lemma_template_cells_bounded(master_o63@);
        assert forall|yy: int, xx: int|
            0 <= yy < 64 && 0 <= xx < 64 implies #[trigger] master_o27@[yy * 64 + xx] <= 64 by {
            assert(master_o27@[yy * 64 + xx] == master_o63@[xx * 64 + yy]);
        }
        lemma_template_cells_bounded(master_o27@);
        assert forall|yy: int, xx: int|
            0 <= yy < 64 && 0 <= xx < 64 implies #[trigger] master_h@[yy * 64 + xx] <= 64 by {
            assert(master_h@[yy * 64 + xx] == master_v@[xx * 64 + yy]);
        }
        lemma_template_cells_bounded(master_h@);
        assert forall|yy: int, xx: int|
            0 <= yy < 64 && 0 <= xx < 64 implies #[trigger] master_o117@[yy * 64 + xx] <= 64 by {
            assert(master_o117@[yy * 64 + xx] == master_o63@[yy * 64 + 63 - xx]);
        }
        lemma_template_cells_bounded(master_o117@);
        assert forall|yy: int, xx: int|
            0 <= yy < 64 && 0 <= xx < 64 implies #[trigger] master_o153@[yy * 64 + xx] <= 64 by {
            assert(master_o153@[yy * 64 + xx] == master_o27@[yy * 64 + 63 - xx]);
        }
        lemma_template_cells_bounded(master_o153@);
    }
    let mut masters: Vec<Vec<u8>> = Vec::new();
    masters.push(master_h);
    masters.push(master_v);
    masters.push(master_o27);
    masters.push(master_o63);
    masters.push(master_o117);
    masters.push(master_o153);
    masters
}

/// The wedge mask tables of all supported block sizes, built once at
/// context initialisation.
pub struct WedgeMasks {
    pub shapes: Vec<WedgeShape>,
}

/// Which entry of [`WedgeMasks::shapes`] serves a block size, counted in
/// the fixed build order from 32×32 down to 8×8.
pub open spec fn spec_wedge_shape_dims(k: int) -> (int, int, u32) {
    if k == 0 {
        (32, 32, 0x7bfb)
    } else if k == 1 {
        (32, 16, 0x7beb)
    } else if k == 2 {
        (32, 8, 0x6beb)
    } else if k == 3 {
        (16, 32, 0x7beb)
    } else if k == 4 {
        (16, 16, 0x7bfb)
    } else if k == 5 {
        (16, 8, 0x7beb)
    } else if k == 6 {
        (8, 32, 0x7aeb)
    } else if k == 7 {
        (8, 16, 0x7beb)
    } else {
        (8, 8, 0x7bfb)
    }
}

/// Which codebook shape `k` is built with: square blocks share one book,
/// wide and tall blocks each their own.
pub open spec fn spec_shape_codebook(k: int) -> int {
    if k == 0 || k == 4 || k == 8 {
        0
    } else if k == 1 || k == 2 || k == 5 {
        1
    } else {
        2
    }
}

impl WedgeMasks {
    pub open spec fn wf(self) -> bool {
        &&& self.shapes.len() == 9
        &&& forall|k: int|
            0 <= k < 9 ==> {
                let dims = spec_wedge_shape_dims(k);
                &&& (#[trigger] self.shapes@[k]).w == dims.0
                &&& self.shapes@[k].h == dims.1
                &&& self.shapes@[k].signs == dims.2
                &&& self.shapes@[k].m444.len() == 32 * (dims.0 * dims.1)
                &&& self.shapes@[k].m422.len() == 32 * ((dims.0 / 2) * dims.1)
                &&& self.shapes@[k].m420.len() == 32 * ((dims.0 / 2) * (dims.1 / 2))
            }
        &&& forall|k: int, n: int, i: int|
            0 <= k < 9 && 0 <= n < 16 && 0 <= i < spec_wedge_shape_dims(k).0
                * spec_wedge_shape_dims(k).1 ==> #[trigger] self.shapes@[k].m444@[(16 + n) * (
            spec_wedge_shape_dims(k).0 * spec_wedge_shape_dims(k).1) + i] == 64
                - self.shapes@[k].m444@[n * (spec_wedge_shape_dims(k).0 * spec_wedge_shape_dims(
                k,
            ).1) + i]
        &&& forall|k: int, i: int|
            0 <= k < 9 && 0 <= i < 32 * (spec_wedge_shape_dims(k).0 * spec_wedge_shape_dims(k).1)
                ==> #[trigger] self.shapes@[k].m444@[i] <= 64
        &&& forall|k: int, n: int, y: int, x: int|
            0 <= k < 9 && 0 <= n < 16 && 0 <= y < spec_wedge_shape_dims(k).1 && 0 <= x
                < spec_wedge_shape_dims(k).0 ==> #[trigger] self.shapes@[k].m444@[n * (
            spec_wedge_shape_dims(k).0 * spec_wedge_shape_dims(k).1) + y * spec_wedge_shape_dims(
                k,
            ).0 + x] == spec_master_cell(
                spec_codebook_entry(spec_shape_codebook(k), n).direction as int,
                32 - (spec_wedge_shape_dims(k).1 * spec_codebook_entry(
                    spec_shape_codebook(k),
                    n,
                ).y_offset) / 8 + y,
                32 - (spec_wedge_shape_dims(k).0 * spec_codebook_entry(
                    spec_shape_codebook(k),
                    n,
                ).x_offset) / 8 + x,
            )
        &&& forall|k: int, q: int, cy: int, cx: int|
            0 <= k < 9 && 0 <= q < 32 && 0 <= cy < spec_wedge_shape_dims(k).1 && 0 <= cx
                < spec_wedge_shape_dims(k).0 / 2 ==> #[trigger] self.shapes@[k].m422@[q * ((
            spec_wedge_shape_dims(k).0 / 2) * spec_wedge_shape_dims(k).1) + cy * (
            spec_wedge_shape_dims(k).0 / 2) + cx] == spec_chroma_cell(
                self.shapes@[k].m444@,
                (spec_sign(self.shapes@[k].signs, q % 16) * 16 + q % 16) * (spec_wedge_shape_dims(
                    k,
                ).0 * spec_wedge_shape_dims(k).1),
                if q / 16 == spec_sign(self.shapes@[k].signs, q % 16) {
                    0
                } else {
                    1
                },
                spec_wedge_shape_dims(k).0,
                0,
                cy,
                cx,
            )
        &&& forall|k: int, q: int, cy: int, cx: int|
            0 <= k < 9 && 0 <= q < 32 && 0 <= cy < spec_wedge_shape_dims(k).1 / 2 && 0 <= cx
                < spec_wedge_shape_dims(k).0 / 2 ==> #[trigger] self.shapes@[k].m420@[q * ((
            spec_wedge_shape_dims(k).0 / 2) * (spec_wedge_shape_dims(k).1 / 2)) + cy * (
            spec_wedge_shape_dims(k).0 / 2) + cx] == spec_chroma_cell(
                self.shapes@[k].m444@,
                (spec_sign(self.shapes@[k].signs, q % 16) * 16 + q % 16) * (spec_wedge_shape_dims(
                    k,
                ).0 * spec_wedge_shape_dims(k).1),
                if q / 16 == spec_sign(self.shapes@[k].signs, q % 16) {
                    0
                } else {
                    1
                },
                spec_wedge_shape_dims(k).0,
                1,
                cy,
                cx,
            )
    }
}

/// One sample of the mask a predictor reads: plane layout `pl` (0 for
/// 4:4:4, 1 for 4:2:2, 2 for 4:2:0), complement flag `inv`, codebook index
/// `n`.  The sign bit selects which of the complementary pair serves as
/// the base mask; 4:4:4 needs no rounding correction, so both `inv`
/// values read the same mask there.
pub fn wedge_mask_cell(shape: &WedgeShape, pl: usize, inv: bool, n: usize, i: usize) -> (r: u8)
    requires
        pl < 3,
        n < 16,
        shape.w == 8 || shape.w == 16 || shape.w == 32,
        shape.h == 8 || shape.h == 16 || shape.h == 32,
        shape.m444.len() == 32 * (shape.w * shape.h),
        shape.m422.len() == 32 * ((shape.w / 2) * shape.h),
        shape.m420.len() == 32 * ((shape.w / 2) * (shape.h / 2)),
        pl == 0 ==> i < shape.w * shape.h,
        pl == 1 ==> i < (shape.w / 2) * shape.h,
        pl == 2 ==> i < (shape.w / 2) * (shape.h / 2),
    ensures
        pl == 0 ==> r == shape.m444@[(spec_sign(shape.signs, n as int) * 16 + n) * (shape.w
            * shape.h) + i],
        pl == 1 ==> r == shape.m422@[((if inv {
            1 - spec_sign(shape.signs, n as int)
        } else {
            spec_sign(shape.signs, n as int)
        }) * 16 + n) * ((shape.w / 2) * shape.h) + i],
        pl == 2 ==> r == shape.m420@[((if inv {
            1 - spec_sign(shape.signs, n as int)
        } else {
            spec_sign(shape.signs, n as int)
        }) * 16 + n) * ((shape.w / 2) * (shape.h / 2)) + i],
{
    let sg = shape.signs;
    let sgn = ((sg >> n) & 1) as usize;
    proof {
        assert((sg >> (n as u32)) & 1 <= 1) by (bit_vector);
    }
    if pl == 0 {
        let st = shape.w * shape.h;
        proof {
            lemma_region_order((sgn * 16 + n) as int, 32, st as int);
        }
        shape.m444[(sgn * 16 + n) * st + i]
    } else if pl == 1 {
        let st = (shape.w / 2) * shape.h;
        let slot = if inv {
            1 - sgn
        } else {
            sgn
        };
        proof {
            lemma_region_order((slot * 16 + n) as int, 32, st as int);
        }
        shape.m422[(slot * 16 + n) * st + i]
    } else {
        let st = (shape.w / 2) * (shape.h / 2);
        let slot = if inv {
            1 - sgn
        } else {
            sgn
        };
        proof {
            lemma_region_order((slot * 16 + n) as int, 32, st as int);
        }
        shape.m420[(slot * 16 + n) * st + i]
    }
}

/// With exact master templates and an exact codebook, every base mask of
/// a shape is the stated crop of its master template.
#[verifier::rlimit(100)]
#[verifier::spinoff_prover]
proof fn lemma_shape_crop(
    shape: WedgeShape,
    masters: Seq<Vec<u8>>,
    cb: Vec<wedge_code_type>,
    cbk: int,
    w: int,
    h: int,
)
    requires
        w == 8 || w == 16 || w == 32,
        h == 8 || h == 16 || h == 32,
        masters.len() == 6,
        forall|d: int| 0 <= d < 6 ==> (#[trigger] masters[d]).len() == 64 * 64,
        forall|d: int, yy: int, xx: int|
            0 <= d < 6 && 0 <= yy < 64 && 0 <= xx < 64 ==> #[trigger] masters[d]@[yy * 64 + xx]
                == spec_master_cell(d, yy, xx),
        codebook_ok(cb),
        forall|n: int| 0 <= n < 16 ==> #[trigger] cb@[n] == spec_codebook_entry(cbk, n),
        forall|n: int, y: int, x: int|
            0 <= n < 16 && 0 <= y < h && 0 <= x < w ==> #[trigger] shape.m444@[n * (w * h) + y * w
                + x] == spec_w444(masters, cb@[n], w, h, y, x),
    ensures
        forall|n: int, y: int, x: int|
            0 <= n < 16 && 0 <= y < h && 0 <= x < w ==> #[trigger] shape.m444@[n * (w * h) + y * w
                + x] == spec_master_cell(
                spec_codebook_entry(cbk, n).direction as int,
                32 - (h * spec_codebook_entry(cbk, n).y_offset) / 8 + y,
                32 - (w * spec_codebook_entry(cbk, n).x_offset) / 8 + x,
            ),
{
    assert forall|n: int, y: int, x: int|
        0 <= n < 16 && 0 <= y < h && 0 <= x < w implies #[trigger] shape.m444@[n * (w * h) + y * w
        + x] == spec_master_cell(
        spec_codebook_entry(cbk, n).direction as int,
        32 - (h * spec_codebook_entry(cbk, n).y_offset) / 8 + y,
        32 - (w * spec_codebook_entry(cbk, n).x_offset) / 8 + x,
    ) by {
        let cbn = cb@[n];
        let dir = cbn.direction as int;
        let xo = 32 - (w * cbn.x_offset) / 8;
        let yo = 32 - (h * cbn.y_offset) / 8;
        assert(w * cbn.x_offset <= 192 && h * cbn.y_offset <= 192) by (nonlinear_arith)
            requires
                w <= 32,
                h <= 32,
                cbn.x_offset <= 6,
                cbn.y_offset <= 6,
        ;
        vstd::arithmetic::div_mod::lemma_div_is_ordered(0, w * cbn.x_offset, 8);
        vstd::arithmetic::div_mod::lemma_div_is_ordered(0, h * cbn.y_offset, 8);
        vstd::arithmetic::div_mod::lemma_div_is_ordered(w * cbn.x_offset, 192, 8);
        vstd::arithmetic::div_mod::lemma_div_is_ordered(h * cbn.y_offset, 192, 8);
        assert(shape.m444@[n * (w * h) + y * w + x] == spec_w444(masters, cbn, w, h, y, x));
        assert(masters[dir]@[(yo + y) * 64 + (xo + x)] == spec_master_cell(dir, yo + y, xo + x));
        assert((yo + y) * 64 + (xo + x) == (yo + y) * 64 + xo + x);
    }
}

/// Build the complete wedge mask tables: the master templates, then one
/// shape per supported block size with its codebook and sign word.
#[verifier::rlimit(100)]
#[verifier::spinoff_prover]
pub fn dav1d_init_wedge_masks() -> (r: WedgeMasks)
    ensures
        r.wf(),
{
    let masters = build_wedge_masters();
    let heqw = wedge_codebook_16_heqw();
    let hltw = wedge_codebook_16_hltw();
    let hgtw = wedge_codebook_16_hgtw();
    let s0 = fill2d_16x2(32, 32, &masters, &heqw, 0x7bfb);
    let s1 = fill2d_16x2(32, 16, &masters, &hltw, 0x7beb);
    let s2 = fill2d_16x2(32, 8, &masters, &hltw, 0x6beb);
    let s3 = fill2d_16x2(16, 32, &masters, &hgtw, 0x7beb);
    let s4 = fill2d_16x2(16, 16, &masters, &heqw, 0x7bfb);
    let s5 = fill2d_16x2(16, 8, &masters, &hltw, 0x7beb);
    let s6 = fill2d_16x2(8, 32, &masters, &hgtw, 0x7aeb);
    let s7 = fill2d_16x2(8, 16, &masters, &hgtw, 0x7beb);
    let s8 = fill2d_16x2(8, 8, &masters, &heqw, 0x7bfb);
    proof {
        lemma_shape_crop(s0, masters@, heqw, 0, 32, 32);
        lemma_shape_crop(s1, masters@, hltw, 1, 32, 16);
        lemma_shape_crop(s2, masters@, hltw, 1, 32, 8);
        lemma_shape_crop(s3, masters@, hgtw, 2, 16, 32);
        lemma_shape_crop(s4, masters@, heqw, 0, 16, 16);
        lemma_shape_crop(s5, masters@, hltw, 1, 16, 8);
        lemma_shape_crop(s6, masters@, hgtw, 2, 8, 32);
        lemma_shape_crop(s7, masters@, hgtw, 2, 8, 16);
        lemma_shape_crop(s8, masters@, heqw, 0, 8, 8);
    }
    let mut shapes: Vec<WedgeShape> = Vec::new();
    shapes.push(s0);
    shapes.push(s1);
    shapes.push(s2);
    shapes.push(s3);
    shapes.push(s4);
    shapes.push(s5);
    shapes.push(s6);
    shapes.push(s7);
    shapes.push(s8);
    let r = WedgeMasks { shapes };
    proof {
        assert(r.wf());
    }
    r
}


/// The one-dimensional inter-intra blend weight ramp.
pub open spec fn spec_ii_weight(i: int) -> u8 {
    if i == 0 {
        60
    } else if i == 1 {
        52
    } else if i == 2 {
        45
    } else if i == 3 {
        39
    } else if i == 4 {
        34
    } else if i == 5 {
        30
    } else if i == 6 {
        26
    } else if i == 7 {
        22
    } else if i == 8 {
        19
    } else if i == 9 {
        17
    } else if i == 10 {
        15
    } else if i == 11 {
        13
    } else if i == 12 {
        11
    } else if i == 13 {
        10
    } else if i == 14 {
        8
    } else if i == 15 {
        7
    } else if i == 16 {
        6
    } else if i == 17 {
        6
    } else if i == 18 {
        5
    } else if i == 19 {
        4
    } else if i == 20 {
        4
    } else if i == 21 {
        3
    } else if i == 22 {
        3
    } else if i == 23 {
        2
    } else if i == 24 {
        2
    } else if i == 25 {
        2
    } else if i == 26 {
        2
    } else {
        1
    }
}

/// Look up the blend weight ramp.
pub fn ii_weight(i: usize) -> (r: u8)
    requires
        i < 32,
    ensures
        r == spec_ii_weight(i as int),
{
    match i {
        0 => 60,
        1 => 52,
        2 => 45,
        3 => 39,
        4 => 34,
        5 => 30,
        6 => 26,
        7 => 22,
        8 => 19,
        9 => 17,
        10 => 15,
        11 => 13,
        12 => 11,
        13 => 10,
        14 => 8,
        15 => 7,
        16 => 6,
        17 => 6,
        18 => 5,
        19 => 4,
        20 => 4,
        21 => 3,
        22 => 3,
        23 => 2,
        24 => 2,
        25 => 2,
        26 => 2,
        _ => 1,
    }
}

/// Build the three directional inter-intra masks of one size as one
/// buffer: the vertical ramp, the horizontal ramp, and the smooth
/// diagonal ramp, each `w`×`h`, subsampling the weight ramp by `step`.
pub fn build_nondc_ii_masks(w: usize, h: usize, step: usize) -> (r: Vec<u8>)
    requires
        1 <= w <= 32,
        1 <= h <= 32,
        1 <= step <= 8,
        (h - 1) * step < 32,
        (w - 1) * step < 32,
    ensures
        r.len() == 3 * (w * h),
        forall|y: int, x: int|
            0 <= y < h && 0 <= x < w ==> #[trigger] r@[y * w + x] == spec_ii_weight(y * step),
        forall|y: int, x: int|
            0 <= y < h && 0 <= x < w ==> #[trigger] r@[w * h + y * w + x] == spec_ii_weight(
                x * step,
            ),
        forall|y: int, x: int|
            0 <= y < h && 0 <= x < w ==> #[trigger] r@[2 * (w * h) + y * w + x] == spec_ii_weight(
                (if x < y {
                    x
                } else {
                    y
                }) * step,
            ),
{
    proof {
        assert(w * h <= 1024) by (nonlinear_arith)
            requires
                w <= 32,
                h <= 32,
        ;
    }
    let wh = w * h;
    let mut out: Vec<u8> = Vec::new();
    let mut seg: usize = 0;
    while seg < 3
        invariant
            1 <= w <= 32,
            1 <= h <= 32,
            1 <= step <= 8,
            (h - 1) * step < 32,
            (w - 1) * step < 32,
            wh == w * h,
            wh <= 1024,
            seg <= 3,
            out.len() == seg * wh,
            forall|y: int, x: int|
                seg >= 1 && 0 <= y < h && 0 <= x < w ==> #[trigger] out@[y * w + x]
                    == spec_ii_weight(y * step),
            forall|y: int, x: int|
                seg >= 2 && 0 <= y < h && 0 <= x < w ==> #[trigger] out@[wh + y * w + x]
                    == spec_ii_weight(x * step),
            forall|y: int, x: int|
                seg >= 3 && 0 <= y < h && 0 <= x < w ==> #[trigger] out@[2 * wh + y * w + x]
                    == spec_ii_weight(
                    (if x < y {
                        x
                    } else {
                        y
                    }) * step,
                ),
        decreases 3 - seg,
    {
        proof {
            assert((seg + 1) * wh == seg * wh + wh && seg * wh + wh <= 3 * wh) by (nonlinear_arith)
                requires
                    0 <= seg < 3,
                    0 <= wh,
            ;
            assert(h * w == w * h) by (nonlinear_arith);
            if seg >= 1 {
                assert(wh <= seg * wh) by (nonlinear_arith)
                    requires
                        1 <= seg,
                        0 <= wh,
                ;
            }
            if seg >= 2 {
                assert(wh + wh <= seg * wh) by (nonlinear_arith)
                    requires
                        2 <= seg,
                        0 <= wh,
                ;
            }
            assert forall|yy: int| 0 <= yy < h implies #[trigger] (yy * w) + w <= h * w by {
                lemma_region_order(yy, h as int, w as int);
            }
        }
        let mut y: usize = 0;
        while y < h
            invariant
                1 <= w <= 32,
                1 <= h <= 32,
                1 <= step <= 8,
                (h - 1) * step < 32,
                (w - 1) * step < 32,
                wh == w * h,
                seg < 3,
                y <= h,
                (seg + 1) * wh == seg * wh + wh,
                h * w == w * h,
                seg >= 1 ==> wh <= seg * wh,
                seg >= 2 ==> wh + wh <= seg * wh,
                forall|yy: int| 0 <= yy < h ==> #[trigger] (yy * w) + w <= h * w,
                out.len() == seg * wh + y * w,
                forall|yy: int, x: int|
                    seg >= 1 && 0 <= yy < h && 0 <= x < w ==> #[trigger] out@[yy * w + x]
                        == spec_ii_weight(yy * step),
                forall|yy: int, x: int|
                    seg >= 2 && 0 <= yy < h && 0 <= x < w ==> #[trigger] out@[wh + yy * w + x]
                        == spec_ii_weight(x * step),
                forall|yy: int, x: int|
                    0 <= yy < y && 0 <= x < w ==> #[trigger] out@[seg * wh + yy * w + x]
                        == spec_ii_weight(
                        (if seg == 0 {
                            yy
                        } else if seg == 1 {
                            x
                        } else if x < yy {
                            x
                        } else {
                            yy
                        }) * step,
                    ),
            decreases h - y,
        {
            proof {
                assert(y * w + w <= h * w && (y + 1) * w == y * w + w && h * w == w * h)
                    by (nonlinear_arith)
                    requires
                        y < h,
                        0 <= w,
                ;
                assert(y * step < 32) by (nonlinear_arith)
                    requires
                        y <= h - 1,
                        (h - 1) * step < 32,
                        0 <= step,
                ;
                assert forall|yy: int| 0 <= yy < y implies #[trigger] (yy * w) + w <= y * w by {
                    lemma_region_order(yy, y as int, w as int);
                }
            }
            let mut x: usize = 0;
            while x < w
                invariant
                    1 <= w <= 32,
                    1 <= h <= 32,
                    1 <= step <= 8,
                    (w - 1) * step < 32,
                    wh == w * h,
                    seg < 3,
                    y < h,
                    x <= w,
                    y * w + w <= h * w,
                    (y + 1) * w == y * w + w,
                    h * w == w * h,
                    y * step < 32,
                    seg >= 1 ==> wh <= seg * wh,
                    seg >= 2 ==> wh + wh <= seg * wh,
                    forall|yy: int| 0 <= yy < h ==> #[trigger] (yy * w) + w <= h * w,
                    forall|yy: int| 0 <= yy < y ==> #[trigger] (yy * w) + w <= y * w,
                    out.len() == seg * wh + y * w + x,
                    forall|yy: int, xx: int|
                        seg >= 1 && 0 <= yy < h && 0 <= xx < w ==> #[trigger] out@[yy * w + xx]
                            == spec_ii_weight(yy * step),
                    forall|yy: int, xx: int|
                        seg >= 2 && 0 <= yy < h && 0 <= xx < w ==> #[trigger] out@[wh + yy * w + xx]
                            == spec_ii_weight(xx * step),
                    forall|yy: int, xx: int|
                        0 <= yy < y && 0 <= xx < w ==> #[trigger] out@[seg * wh + yy * w + xx]
                            == spec_ii_weight(
                            (if seg == 0 {
                                yy
                            } else if seg == 1 {
                                xx
                            } else if xx < yy {
                                xx
                            } else {
                                yy
                            }) * step,
                        ),
                    forall|xx: int|
                        0 <= xx < x ==> #[trigger] out@[seg * wh + y * w + xx] == spec_ii_weight(
                            (if seg == 0 {
                                y as int
                            } else if seg == 1 {
                                xx
                            } else if xx < y {
                                xx
                            } else {
                                y as int
                            }) * step,
                        ),
                decreases w - x,
            {
                proof {
                    assert(x * step < 32) by (nonlinear_arith)
                        requires
                            x <= w - 1,
                            (w - 1) * step < 32,
                            0 <= step,
                    ;
                }
                let idx: usize = if seg == 0 {
                    y * step
                } else if seg == 1 {
                    x * step
                } else {
                    if x < y {
                        x * step
                    } else {
                        y * step
                    }
                };
                out.push(ii_weight(idx));
                x += 1;
            }
            proof {
                assert forall|yy: int, xx: int|
                    0 <= yy < y + 1 && 0 <= xx < w implies #[trigger] out@[seg * wh + yy * w + xx]
                    == spec_ii_weight(
                    (if seg == 0 {
                        yy
                    } else if seg == 1 {
                        xx
                    } else if xx < yy {
                        xx
                    } else {
                        yy
                    }) * step,
                ) by {
                    if yy < y {
                        assert(out@[seg * wh + yy * w + xx] == spec_ii_weight(
                            (if seg == 0 {
                                yy
                            } else if seg == 1 {
                                xx
                            } else if xx < yy {
                                xx
                            } else {
                                yy
                            }) * step,
                        ));
                    }
                }
            }
            y += 1;
        }
        proof {
            if seg == 0 {
                assert forall|yy: int, xx: int|
                    0 <= yy < h && 0 <= xx < w implies #[trigger] out@[yy * w + xx]
                    == spec_ii_weight(yy * step) by {
                    assert(out@[seg * wh + yy * w + xx] == spec_ii_weight(yy * step));
                }
            }
            if seg == 1 {
                assert forall|yy: int, xx: int|
                    0 <= yy < h && 0 <= xx < w implies #[trigger] out@[wh + yy * w + xx]
                    == spec_ii_weight(xx * step) by {
                    assert(out@[seg * wh + yy * w + xx] == spec_ii_weight(xx * step));
                }
            }
            if seg == 2 {
                assert forall|yy: int, xx: int|
                    0 <= yy < h && 0 <= xx < w implies #[trigger] out@[2 * wh + yy * w + xx]
                    == spec_ii_weight(
                    (if xx < yy {
                        xx
                    } else {
                        yy
                    }) * step,
                ) by {
                    assert(out@[seg * wh + yy * w + xx] == spec_ii_weight(
                        (if xx < yy {
                            xx
                        } else {
                            yy
                        }) * step,
                    ));
                }
            }
        }
        seg += 1;
    }
    out
}

/// The inter-intra masks of one size tier.
pub struct IiMaskSet {
    pub w: usize,
    pub h: usize,
    pub step: usize,
    pub masks: Vec<u8>,
}

/// The size and ramp step of set `k`, in the fixed build order.
pub open spec fn spec_ii_dims(k: int) -> (int, int, int) {
    if k == 0 {
        (32, 32, 1)
    } else if k == 1 {
        (16, 32, 1)
    } else if k == 2 {
        (16, 16, 2)
    } else if k == 3 {
        (8, 32, 1)
    } else if k == 4 {
        (8, 16, 2)
    } else if k == 5 {
        (8, 8, 4)
    } else if k == 6 {
        (4, 16, 2)
    } else if k == 7 {
        (4, 8, 4)
    } else {
        (4, 4, 8)
    }
}

/// The inter-intra mask tables: the flat DC mask shared by every size and
/// the nine directional size tiers.
pub struct InterIntraMasks {
    pub dc: Vec<u8>,
    pub sets: Vec<IiMaskSet>,
}

impl InterIntraMasks {
    pub open spec fn wf(self) -> bool {
        &&& self.dc.len() == 32 * 32
        &&& (forall|i: int| 0 <= i < 32 * 32 ==> #[trigger] self.dc@[i] == 32)
        &&& self.sets.len() == 9
        &&& forall|k: int|
            0 <= k < 9 ==> {
                let dims = spec_ii_dims(k);
                &&& (#[trigger] self.sets@[k]).w == dims.0
                &&& self.sets@[k].h == dims.1
                &&& self.sets@[k].step == dims.2
                &&& self.sets@[k].masks.len() == 3 * (dims.0 * dims.1)
            }
        &&& forall|k: int, y: int, x: int|
            0 <= k < 9 && 0 <= y < spec_ii_dims(k).1 && 0 <= x < spec_ii_dims(k).0
                ==> #[trigger] self.sets@[k].masks@[y * spec_ii_dims(k).0 + x] == spec_ii_weight(
                y * spec_ii_dims(k).2,
            )
        &&& forall|k: int, y: int, x: int|
            0 <= k < 9 && 0 <= y < spec_ii_dims(k).1 && 0 <= x < spec_ii_dims(k).0
                ==> #[trigger] self.sets@[k].masks@[spec_ii_dims(k).0 * spec_ii_dims(k).1 + y
                * spec_ii_dims(k).0 + x] == spec_ii_weight(x * spec_ii_dims(k).2)
        &&& forall|k: int, y: int, x: int|
            0 <= k < 9 && 0 <= y < spec_ii_dims(k).1 && 0 <= x < spec_ii_dims(k).0
                ==> #[trigger] self.sets@[k].masks@[2 * (spec_ii_dims(k).0 * spec_ii_dims(k).1) + y
                * spec_ii_dims(k).0 + x] == spec_ii_weight(
                (if x < y {
                    x
                } else {
                    y
                }) * spec_ii_dims(k).2,
            )
    }
}

/// Build the inter-intra mask tables: the constant DC mask and one
/// directional mask triple per size tier.
pub fn dav1d_init_interintra_masks() -> (r: InterIntraMasks)
    ensures
        r.wf(),
{
    let mut dc: Vec<u8> = Vec::new();
    let mut i: usize = 0;
    while i < 1024
        invariant
            dc.len() == i,
            i <= 1024,
            forall|k: int| 0 <= k < i ==> #[trigger] dc@[k] == 32,
        decreases 1024 - i,
    {
        dc.push(32);
        i += 1;
    }
    let mut sets: Vec<IiMaskSet> = Vec::new();
    sets.push(IiMaskSet { w: 32, h: 32, step: 1, masks: build_nondc_ii_masks(32, 32, 1) });
    sets.push(IiMaskSet { w: 16, h: 32, step: 1, masks: build_nondc_ii_masks(16, 32, 1) });
    sets.push(IiMaskSet { w: 16, h: 16, step: 2, masks: build_nondc_ii_masks(16, 16, 2) });
    sets.push(IiMaskSet { w: 8, h: 32, step: 1, masks: build_nondc_ii_masks(8, 32, 1) });
    sets.push(IiMaskSet { w: 8, h: 16, step: 2, masks: build_nondc_ii_masks(8, 16, 2) });
    sets.push(IiMaskSet { w: 8, h: 8, step: 4, masks: build_nondc_ii_masks(8, 8, 4) });
    sets.push(IiMaskSet { w: 4, h: 16, step: 2, masks: build_nondc_ii_masks(4, 16, 2) });
    sets.push(IiMaskSet { w: 4, h: 8, step: 4, masks: build_nondc_ii_masks(4, 8, 4) });
    sets.push(IiMaskSet { w: 4, h: 4, step: 8, masks: build_nondc_ii_masks(4, 4, 8) });
    InterIntraMasks { dc, sets }
}

/// Which mask set serves plane layout `pl` of block size `bs`: `None` for
/// block sizes that carry no inter-intra prediction.  The tier shrinks
/// with the chroma subsampling of the layout.
pub open spec fn spec_ii_set_for(bs: int, pl: int) -> Option<int> {
    if bs == 7 {
        // 32x32
        if pl == 0 {
            Some(0int)
        } else if pl == 1 {
            Some(1int)
        } else {
            Some(2int)
        }
    } else if bs == 8 {
        // 32x16
        if pl == 0 {
            Some(0int)
        } else {
            Some(2int)
        }
    } else if bs == 11 {
        // 16x32
        if pl == 0 {
            Some(1int)
        } else if pl == 1 {
            Some(3int)
        } else {
            Some(4int)
        }
    } else if bs == 12 {
        // 16x16
        if pl == 0 {
            Some(2int)
        } else if pl == 1 {
            Some(4int)
        } else {
            Some(5int)
        }
    } else if bs == 13 {
        // 16x8
        if pl == 0 {
            Some(2int)
        } else {
            Some(5int)
        }
    } else if bs == 16 {
        // 8x16
        if pl == 0 {
            Some(4int)
        } else if pl == 1 {
            Some(6int)
        } else {
            Some(7int)
        }
    } else if bs == 17 {
        // 8x8
        if pl == 0 {
            Some(5int)
        } else if pl == 1 {
            Some(7int)
        } else {
            Some(8int)
        }
    } else {
        None
    }
}

/// Resolve the mask set index for a block size and plane layout.
pub fn ii_set_for(bs: u8, pl: usize) -> (r: Option<usize>)
    requires
        pl < 3,
    ensures
        r is Some <==> spec_ii_set_for(bs as int, pl as int) is Some,
        r is Some ==> r->0 == spec_ii_set_for(bs as int, pl as int)->0,
{
    match (bs, pl) {
        (7, 0) => Some(0),
        (7, 1) => Some(1),
        (7, 2) => Some(2),
        (8, 0) => Some(0),
        (8, 1) => Some(2),
        (8, 2) => Some(2),
        (11, 0) => Some(1),
        (11, 1) => Some(3),
        (11, 2) => Some(4),
        (12, 0) => Some(2),
        (12, 1) => Some(4),
        (12, 2) => Some(5),
        (13, 0) => Some(2),
        (13, 1) => Some(5),
        (13, 2) => Some(5),
        (16, 0) => Some(4),
        (16, 1) => Some(6),
        (16, 2) => Some(7),
        (17, 0) => Some(5),
        (17, 1) => Some(7),
        (17, 2) => Some(8),
        _ => None,
    }
}

} // verus!
