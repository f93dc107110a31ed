//! The CDEF application pass: per 8×8 unit, decide whether to filter,
//! derive the adapted strengths, take the left/right and top-line backups
//! that resolve read-before-overwrite hazards, and invoke the directional
//! filter kernels.

use crate::plane::Plane;
use vstd::arithmetic::div_mod::lemma_div_is_ordered;
use vstd::arithmetic::div_mod::lemma_div_multiples_vanish_fancy;
use vstd::prelude::*;

verus! {

/// Chroma subsampling layout of a frame.
#[derive(Clone, Copy, PartialEq, Eq, Structural)]
pub enum Rav1dPixelLayout {
    I400,
    I420,
    I422,
    I444,
}

impl Rav1dPixelLayout {
    /// Vertical chroma subsampling step (1 for 4:2:0, else 0).
    pub open spec fn spec_ss_ver(self) -> int {
        if self is I420 {
            1
        } else {
            0
        }
    }

    /// Horizontal chroma subsampling step (1 unless 4:4:4).
    pub open spec fn spec_ss_hor(self) -> int {
        if self is I444 {
            0
        } else {
            1
        }
    }

    pub fn ss_ver(self) -> (r: usize)
        ensures
            r == self.spec_ss_ver(),
    {
        if self == Rav1dPixelLayout::I420 {
            1
        } else {
            0
        }
    }

    pub fn ss_hor(self) -> (r: usize)
        ensures
            r == self.spec_ss_hor(),
    {
        if self == Rav1dPixelLayout::I444 {
            0
        } else {
            1
        }
    }
}

/// Floor of the base-2 logarithm; zero below 2.
pub open spec fn spec_ulog2(v: nat) -> nat
    decreases v,
{
    if v < 2 {
        0
    } else {
        1 + spec_ulog2(v / 2)
    }
}

/// `spec_ulog2` never decreases as its argument grows.
pub proof fn lemma_ulog2_monotonic(u1: nat, u2: nat)
    requires
        u1 <= u2,
    ensures
        spec_ulog2(u1) <= spec_ulog2(u2),
    decreases u2,
{
    if u1 >= 2 {
        lemma_div_is_ordered(u1 as int, u2 as int, 2);
        lemma_ulog2_monotonic(u1 / 2, u2 / 2);
    }
}

/// `spec_ulog2` of anything below `2^k` stays below `k`.
pub proof fn lemma_ulog2_bound(v: nat, k: nat)
    requires
        k >= 1,
        v < vstd::arithmetic::power2::pow2(k),
    ensures
        spec_ulog2(v) <= k - 1,
    decreases k,
{
    if v >= 2 {
        vstd::arithmetic::power2::lemma_pow2_unfold(k);
        assert(v / 2 < vstd::arithmetic::power2::pow2((k - 1) as nat));
        if k == 1 {
            vstd::arithmetic::power2::lemma2_to64();
        } else {
            lemma_ulog2_bound(v / 2, (k - 1) as nat);
        }
    }
}

/// Floor of the base-2 logarithm of a word.
pub fn ulog2(v: u32) -> (r: u32)
    ensures
        r == spec_ulog2(v as nat),
        r <= 31,
{
    proof {
        vstd::arithmetic::power2::lemma2_to64();
        lemma_ulog2_bound(v as nat, 32);
    }
    let mut x: u32 = v;
    let mut r: u32 = 0;
    while x >= 2
        invariant
            spec_ulog2(v as nat) == r + spec_ulog2(x as nat),
            spec_ulog2(v as nat) <= 31,
        decreases x,
    {
        x = x / 2;
        r = r + 1;
    }
    r
}

/// The variance-adapted primary strength: zero for a flat unit, otherwise
/// the strength scaled by `(4 + min(log2(var/64), 12)) / 16`.
pub open spec fn spec_adjust_strength(strength: int, var: nat) -> int {
    if var == 0 {
        0
    } else {
        let i = if var / 64 != 0 {
            if spec_ulog2(var / 64) < 12 {
                spec_ulog2(var / 64) as int
            } else {
                12
            }
        } else {
            0
        };
        (strength * (4 + i) + 8) / 16
    }
}

/// Reduce the primary strength as a function of the local variance, so flat
/// regions are not over-sharpened.
pub fn adjust_strength(strength: u32, var: u32) -> (r: u32)
    requires
        strength <= 3840,
    ensures
        r == spec_adjust_strength(strength as int, var as nat),
{
    if var == 0 {
        return 0;
    }
    let i: u32 = if var >> 6 != 0 {
        let l = ulog2(var >> 6);
        if l < 12 {
            l
        } else {
            12
        }
    } else {
        0
    };
    proof {
        assert(var >> 6u32 == var / 64) by (bit_vector);
        assert(strength * (4 + i) <= 3840 * 16) by (nonlinear_arith)
            requires
                strength <= 3840,
                i <= 12,
        ;
    }
    (strength * (4 + i) + 8) / 16
}

/// Strength adaptation is monotone in the variance for a fixed strength,
/// and a zero variance always yields a zero adjusted strength.
pub proof fn lemma_adjust_strength_monotonic(strength: int, v1: nat, v2: nat)
    requires
        0 <= strength,
        v1 <= v2,
    ensures
        spec_adjust_strength(strength, v1) <= spec_adjust_strength(strength, v2),
        spec_adjust_strength(strength, 0) == 0,
{
    if v1 != 0 {
        let i1 = if v1 / 64 != 0 {
            if spec_ulog2(v1 / 64) < 12 {
                spec_ulog2(v1 / 64) as int
            } else {
                12
            }
        } else {
            0
        };
        let i2 = if v2 / 64 != 0 {
            if spec_ulog2(v2 / 64) < 12 {
                spec_ulog2(v2 / 64) as int
            } else {
                12
            }
        } else {
            0
        };
        lemma_div_is_ordered(v1 as int, v2 as int, 64);
        lemma_ulog2_monotonic(v1 / 64, v2 / 64);
        assert(i1 <= i2);
        assert(strength * (4 + i1) <= strength * (4 + i2)) by (nonlinear_arith)
            requires
                0 <= strength,
                i1 <= i2,
        ;
        lemma_div_is_ordered(strength * (4 + i1) + 8, strength * (4 + i2) + 8, 16);
    } else {
        if v2 != 0 {
            let i2 = if v2 / 64 != 0 {
                if spec_ulog2(v2 / 64) < 12 {
                    spec_ulog2(v2 / 64) as int
                } else {
                    12
                }
            } else {
                0
            };
            assert(strength * (4 + i2) >= 0) by (nonlinear_arith)
                requires
                    0 <= strength,
                    0 <= i2,
            ;
            lemma_div_is_ordered(0, strength * (4 + i2) + 8, 16);
        }
    }
}


/// Copy `n` whole rows of `src`, starting at `src_r0`, into `dst` starting
/// at `dst_r0`.  Every destination sample in the copied region is
/// overwritten with current source content; nothing else changes.
pub fn copy_rows(dst: &mut Plane, dst_r0: usize, src: &Plane, src_r0: usize, n: usize)
    requires
        old(dst).wf(),
        src.wf(),
        dst_r0 + n <= old(dst).spec_h(),
        src_r0 + n <= src.spec_h(),
        src.spec_w() <= old(dst).spec_w(),
    ensures
        final (dst).wf(),
        final (dst).spec_w() == old(dst).spec_w(),
        final (dst).spec_h() == old(dst).spec_h(),
        final (dst).spec_flipped() == old(dst).spec_flipped(),
        forall|r: int, c: int|
            0 <= r < old(dst).spec_h() && 0 <= c < old(dst).spec_w()
                ==> #[trigger] final (dst).view()[r][c] == if dst_r0 <= r < dst_r0 + n && c
                < src.spec_w() {
                src.view()[src_r0 + r - dst_r0][c]
            } else {
                old(dst).view()[r][c]
            },
{
    let w = src.width();
    let mut i: usize = 0;
    while i < n
        invariant
            old(dst).wf(),
            src.wf(),
            dst.wf(),
            dst.spec_w() == old(dst).spec_w(),
            dst.spec_h() == old(dst).spec_h(),
            dst.spec_flipped() == old(dst).spec_flipped(),
            dst_r0 + n <= dst.spec_h(),
            src_r0 + n <= src.spec_h(),
            w == src.spec_w() <= dst.spec_w(),
            i <= n,
            forall|r: int, c: int|
                0 <= r < dst.spec_h() && 0 <= c < dst.spec_w()
                    ==> #[trigger] dst.view()[r][c] == if dst_r0 <= r < dst_r0 + i && c < w {
                    src.view()[src_r0 + r - dst_r0][c]
                } else {
                    old(dst).view()[r][c]
                },
        decreases n - i,
    {
        let mut j: usize = 0;
        while j < w
            invariant
                old(dst).wf(),
                src.wf(),
                dst.wf(),
                dst.spec_w() == old(dst).spec_w(),
                dst.spec_h() == old(dst).spec_h(),
                dst.spec_flipped() == old(dst).spec_flipped(),
                dst_r0 + n <= dst.spec_h(),
                src_r0 + n <= src.spec_h(),
                w == src.spec_w() <= dst.spec_w(),
                i < n,
                j <= w,
                forall|r: int, c: int|
                    0 <= r < dst.spec_h() && 0 <= c < dst.spec_w()
                        ==> #[trigger] dst.view()[r][c] == if dst_r0 <= r < dst_r0 + i && c < w {
                        src.view()[src_r0 + r - dst_r0][c]
                    } else if r == dst_r0 + i && c < j {
                        src.view()[src_r0 + r - dst_r0][c]
                    } else {
                        old(dst).view()[r][c]
                    },
            decreases w - j,
        {
            let v = src.get(src_r0 + i, j);
            dst.set(dst_r0 + i, j, v);
            j += 1;
        }
        i += 1;
    }
}

/// Snapshot the bottom context rows of the current superblock band into a
/// top-line backup, before another row's pass may overwrite them.
///
/// For luma the last two rows of the eight-row band are saved; for chroma
/// the offset follows the vertical subsampling (rows 2..4 of a four-row
/// 4:2:0 band, rows 6..8 otherwise).  A monochrome layout leaves the chroma
/// backups untouched.  Planes with bottom-up layouts go through the same
/// logical addressing, so the mirrored copy of such buffers needs no
/// separate path here.
pub fn backup2lines(
    dst_y: &mut Plane,
    dst_u: &mut Plane,
    dst_v: &mut Plane,
    src_y: &Plane,
    src_u: &Plane,
    src_v: &Plane,
    y_band: usize,
    uv_band: usize,
    y_dst_row: usize,
    uv_dst_row: usize,
    layout: Rav1dPixelLayout,
)
    requires
        old(dst_y).wf(),
        old(dst_u).wf(),
        old(dst_v).wf(),
        src_y.wf(),
        src_u.wf(),
        src_v.wf(),
        y_band + 8 <= src_y.spec_h(),
        y_dst_row + 2 <= old(dst_y).spec_h(),
        src_y.spec_w() <= old(dst_y).spec_w(),
        !(layout is I400) ==> {
            let uv_rows = if layout is I420 {
                4int
            } else {
                8int
            };
            &&& uv_band + uv_rows <= src_u.spec_h()
            &&& uv_band + uv_rows <= src_v.spec_h()
            &&& uv_dst_row + 2 <= old(dst_u).spec_h()
            &&& uv_dst_row + 2 <= old(dst_v).spec_h()
            &&& src_u.spec_w() <= old(dst_u).spec_w()
            &&& src_v.spec_w() <= old(dst_v).spec_w()
        },
    ensures
        final (dst_y).wf(),
        final (dst_u).wf(),
        final (dst_v).wf(),
        final (dst_y).spec_w() == old(dst_y).spec_w() && final (dst_y).spec_h() == old(
            dst_y,
        ).spec_h() && final (dst_y).spec_flipped() == old(dst_y).spec_flipped(),
        final (dst_u).spec_w() == old(dst_u).spec_w() && final (dst_u).spec_h() == old(
            dst_u,
        ).spec_h() && final (dst_u).spec_flipped() == old(dst_u).spec_flipped(),
        final (dst_v).spec_w() == old(dst_v).spec_w() && final (dst_v).spec_h() == old(
            dst_v,
        ).spec_h() && final (dst_v).spec_flipped() == old(dst_v).spec_flipped(),
        forall|r: int, c: int|
            0 <= r < old(dst_y).spec_h() && 0 <= c < old(dst_y).spec_w()
                ==> #[trigger] final (dst_y).view()[r][c] == if y_dst_row <= r < y_dst_row + 2 && c
                < src_y.spec_w() {
                src_y.view()[y_band + 6 + r - y_dst_row][c]
            } else {
                old(dst_y).view()[r][c]
            },
        layout is I400 ==> *final (dst_u) == *old(dst_u) && *final (dst_v) == *old(dst_v),
        !(layout is I400) ==> {
            let uv_off = if layout is I420 {
                2int
            } else {
                6int
            };
            &&& forall|r: int, c: int|
                0 <= r < old(dst_u).spec_h() && 0 <= c < old(dst_u).spec_w()
                    ==> #[trigger] final (dst_u).view()[r][c] == if uv_dst_row <= r < uv_dst_row + 2
                    && c < src_u.spec_w() {
                    src_u.view()[uv_band + uv_off + r - uv_dst_row][c]
                } else {
                    old(dst_u).view()[r][c]
                }
            &&& forall|r: int, c: int|
                0 <= r < old(dst_v).spec_h() && 0 <= c < old(dst_v).spec_w()
                    ==> #[trigger] final (dst_v).view()[r][c] == if uv_dst_row <= r < uv_dst_row + 2
                    && c < src_v.spec_w() {
                    src_v.view()[uv_band + uv_off + r - uv_dst_row][c]
                } else {
                    old(dst_v).view()[r][c]
                }
        },
{
    copy_rows(dst_y, y_dst_row, src_y, y_band + 6, 2);
    if !matches!(layout, Rav1dPixelLayout::I400) {
        let uv_off: usize = if matches!(layout, Rav1dPixelLayout::I420) {
            2
        } else {
            6
        };
        copy_rows(dst_u, uv_dst_row, src_u, uv_band + uv_off, 2);
        copy_rows(dst_v, uv_dst_row, src_v, uv_band + uv_off, 2);
    }
}

/// No stale data survives a top-line backup: what a later pass reads from
/// the backed-up region is fully determined by the current source rows,
/// whatever the backup buffer held before — toggling between slots can
/// therefore never expose a previous frame's contents.
pub proof fn lemma_backup_overwrites_stale(
    before_a: Plane,
    before_b: Plane,
    after_a: Plane,
    after_b: Plane,
    src: Plane,
    dst_r0: int,
    src_r0: int,
    n: int,
)
    requires
        before_a.wf() && before_b.wf() && src.wf(),
        before_a.spec_w() == before_b.spec_w() && before_a.spec_h() == before_b.spec_h(),
        src.spec_w() <= before_a.spec_w(),
        0 <= dst_r0 && dst_r0 + n <= before_a.spec_h(),
        0 <= src_r0 && src_r0 + n <= src.spec_h(),
        after_a.spec_w() == before_a.spec_w() && after_a.spec_h() == before_a.spec_h(),
        after_b.spec_w() == before_b.spec_w() && after_b.spec_h() == before_b.spec_h(),
        forall|r: int, c: int|
            dst_r0 <= r < dst_r0 + n && 0 <= c < src.spec_w()
                ==> #[trigger] after_a.view()[r][c] == src.view()[src_r0 + r - dst_r0][c],
        forall|r: int, c: int|
            dst_r0 <= r < dst_r0 + n && 0 <= c < src.spec_w()
                ==> #[trigger] after_b.view()[r][c] == src.view()[src_r0 + r - dst_r0][c],
    ensures
        forall|r: int, c: int|
            dst_r0 <= r < dst_r0 + n && 0 <= c < src.spec_w() ==> #[trigger] after_a.view()[r][c]
                == after_b.view()[r][c],
{
}

/// The 2×8 left/right column snapshots for one CDEF unit: for each of the
/// three planes, up to eight rows of two samples.
pub struct Backup2x8 {
    pub px: Vec<u16>,
}

impl Backup2x8 {
    pub open spec fn wf(self) -> bool {
        self.px.len() == 48
    }

    /// Sample `j` (0 or 1) of row `y` of plane `pl`.
    pub open spec fn at(self, pl: int, y: int, j: int) -> u16 {
        self.px[pl * 16 + y * 2 + j]
    }

    pub fn new() -> (r: Backup2x8)
        ensures
            r.wf(),
            forall|pl: int, y: int, j: int|
                0 <= pl < 3 && 0 <= y < 8 && 0 <= j < 2 ==> r.at(pl, y, j) == 0,
    {
        let mut px: Vec<u16> = Vec::new();
        let mut i: usize = 0;
        while i < 48
            invariant
                px.len() == i,
                i <= 48,
                forall|k: int| 0 <= k < i ==> px[k] == 0,
            decreases 48 - i,
        {
            px.push(0);
            i += 1;
        }
        Backup2x8 { px }
    }

    pub fn get(&self, pl: usize, y: usize, j: usize) -> (v: u16)
        requires
            self.wf(),
            pl < 3,
            y < 8,
            j < 2,
        ensures
            v == self.at(pl as int, y as int, j as int),
    {
        self.px[pl * 16 + y * 2 + j]
    }

    fn put(&mut self, pl: usize, y: usize, j: usize, v: u16)
        requires
            old(self).wf(),
            pl < 3,
            y < 8,
            j < 2,
        ensures
            final (self).wf(),
            final (self).px@ == old(self).px@.update((pl * 16 + y * 2 + j) as int, v),
    {
        self.px.set(pl * 16 + y * 2 + j, v);
    }
}


/// Copy `rows` two-sample column snippets of `src` (rows `r0..`, columns
/// `c0..c0+2`) into plane slot `pl` of a snapshot.
fn copy_col2(dst: &mut Backup2x8, pl: usize, rows: usize, src: &Plane, r0: usize, c0: usize)
    requires
        old(dst).wf(),
        src.wf(),
        pl < 3,
        rows <= 8,
        r0 + rows <= src.spec_h(),
        c0 + 2 <= src.spec_w(),
    ensures
        final (dst).wf(),
        forall|k: int|
            0 <= k < 48 ==> #[trigger] final (dst).px@[k] == if pl * 16 <= k < pl * 16 + rows * 2 {
                src.view()[r0 + (k - pl * 16) / 2][c0 + (k - pl * 16) % 2]
            } else {
                old(dst).px@[k]
            },
{
    let mut y: usize = 0;
    while y < rows
        invariant
            old(dst).wf(),
            dst.wf(),
            src.wf(),
            pl < 3,
            rows <= 8,
            r0 + rows <= src.spec_h(),
            c0 + 2 <= src.spec_w(),
            y <= rows,
            forall|k: int|
                0 <= k < 48 ==> #[trigger] dst.px@[k] == if pl * 16 <= k < pl * 16 + y * 2 {
                    src.view()[r0 + (k - pl * 16) / 2][c0 + (k - pl * 16) % 2]
                } else {
                    old(dst).px@[k]
                },
        decreases rows - y,
    {
        let v0 = src.get(r0 + y, c0);
        let v1 = src.get(r0 + y, c0 + 1);
        dst.put(pl, y, 0, v0);
        dst.put(pl, y, 1, v1);
        proof {
            assert forall|k: int| 0 <= k < 48 implies #[trigger] dst.px@[k] == if pl * 16 <= k < pl
                * 16 + (y + 1) * 2 {
                src.view()[r0 + (k - pl * 16) / 2][c0 + (k - pl * 16) % 2]
            } else {
                old(dst).px@[k]
            } by {
                if pl * 16 <= k < pl * 16 + (y + 1) * 2 {
                    let t = k - pl * 16;
                    assert(t == 2 * (t / 2) + t % 2) by {
                        vstd::arithmetic::div_mod::lemma_fundamental_div_mod(t, 2);
                    }
                }
            }
        }
        y += 1;
    }
}

/// Flags selecting which planes [`backup2x8`] snapshots.
pub const BACKUP_2X8_Y: u8 = 1;

pub const BACKUP_2X8_UV: u8 = 2;

/// Snapshot the two columns at `x + x_off - 2` of each selected plane for
/// one CDEF unit, so the unit to the right can still read its left context
/// after this unit has been filtered in place.
pub fn backup2x8(
    dst: &mut Backup2x8,
    src_y: &Plane,
    src_u: &Plane,
    src_v: &Plane,
    y_row: usize,
    uv_row: usize,
    x: usize,
    x_off: usize,
    layout: Rav1dPixelLayout,
    flag: u8,
)
    requires
        old(dst).wf(),
        src_y.wf(),
        src_u.wf(),
        src_v.wf(),
        flag & BACKUP_2X8_Y != 0 ==> {
            &&& y_row + 8 <= src_y.spec_h()
            &&& 2 <= x + x_off
            &&& x + x_off <= src_y.spec_w()
        },
        (!(layout is I400) && flag & BACKUP_2X8_UV != 0) ==> {
            let sv = layout.spec_ss_ver();
            let sh = layout.spec_ss_hor();
            let xc = if sh == 1 {
                (x + x_off) / 2
            } else {
                x + x_off
            };
            &&& uv_row + (if sv == 1 {
                4int
            } else {
                8int
            }) <= src_u.spec_h()
            &&& uv_row + (if sv == 1 {
                4int
            } else {
                8int
            }) <= src_v.spec_h()
            &&& 2 <= xc
            &&& xc <= src_u.spec_w()
            &&& xc <= src_v.spec_w()
            &&& x + x_off <= usize::MAX
        },
    ensures
        final (dst).wf(),
        forall|k: int|
            0 <= k < 48 ==> #[trigger] final (dst).px@[k] == {
                let sv = layout.spec_ss_ver();
                let sh = layout.spec_ss_hor();
                let xc = if sh == 1 {
                    (x + x_off) / 2int
                } else {
                    x + x_off
                };
                let uv_rows = if sv == 1 {
                    4int
                } else {
                    8int
                };
                if flag & BACKUP_2X8_Y != 0 && 0 <= k < 16 {
                    src_y.view()[y_row + k / 2][x + x_off - 2 + k % 2]
                } else if !(layout is I400) && flag & BACKUP_2X8_UV != 0 && 16 <= k < 16 + uv_rows
                    * 2 {
                    src_u.view()[uv_row + (k - 16) / 2][xc - 2 + (k - 16) % 2]
                } else if !(layout is I400) && flag & BACKUP_2X8_UV != 0 && 32 <= k < 32 + uv_rows
                    * 2 {
                    src_v.view()[uv_row + (k - 32) / 2][xc - 2 + (k - 32) % 2]
                } else {
                    old(dst).px@[k]
                }
            },
{
    if flag & BACKUP_2X8_Y != 0 {
        copy_col2(dst, 0, 8, src_y, y_row, x + x_off - 2);
    }
    if matches!(layout, Rav1dPixelLayout::I400) || flag & BACKUP_2X8_UV == 0 {
        return ;
    }
    let ss_ver = layout.ss_ver();
    let ss_hor = layout.ss_hor();
    let xc = if ss_hor == 1 {
        (x + x_off) / 2
    } else {
        x + x_off
    };
    let uv_rows: usize = if ss_ver == 1 {
        4
    } else {
        8
    };
    copy_col2(dst, 1, uv_rows, src_u, uv_row, xc - 2);
    copy_col2(dst, 2, uv_rows, src_v, uv_row, xc - 2);
}


/// Edge availability flags for one CDEF unit: a neighbour exists and may be
/// read on that side.
pub const CDEF_HAVE_LEFT: u8 = 1;

pub const CDEF_HAVE_RIGHT: u8 = 2;

pub const CDEF_HAVE_TOP: u8 = 4;

pub const CDEF_HAVE_BOTTOM: u8 = 8;

/// Chroma reuse of the luma direction: identity except for 4:2:2, whose
/// halved vertical resolution remaps the eight directions.
pub open spec fn spec_uv_dir(is_422: bool, dir: int) -> int {
    if !is_422 {
        dir
    } else if dir == 0 {
        7
    } else if dir == 1 {
        0
    } else if dir == 2 {
        2
    } else if dir == 3 {
        4
    } else if dir == 4 {
        5
    } else if dir == 5 {
        6
    } else if dir == 6 {
        6
    } else {
        6
    }
}

pub fn uv_dir(is_422: bool, dir: u8) -> (r: u8)
    requires
        dir < 8,
    ensures
        r == spec_uv_dir(is_422, dir as int),
        r < 8,
{
    if !is_422 {
        dir
    } else {
        match dir {
            0 => 7,
            1 => 0,
            2 => 2,
            3 => 4,
            4 => 5,
            5 => 6,
            6 => 6,
            _ => 6,
        }
    }
}

/// The directional filter kernels, selected once at context initialisation.
///
/// The direction search and the constrained filter itself are the
/// kernel-dispatch layer's contract surface: an implementation must report
/// a direction in `0..8` and must confine its writes to the unit handed to
/// it.  Context that is unavailable per `edges` is zero-filled in the
/// `top`/`bot` buffers and must not influence the output.
pub trait CdefKernel {
    /// Estimate the dominant gradient direction and variance of the 8×8
    /// unit at `(x, y)`.
    fn dir(&self, p: &Plane, x: usize, y: usize, bdmax: u16) -> (r: (u8, u32))
        requires
            p.wf(),
            x + 8 <= p.spec_w(),
            y + 8 <= p.spec_h(),
        ensures
            r.0 < 8,
    ;

    /// Apply the constrained directional filter in place to the `w`×`h`
    /// unit at `(x, y)`, reading left context from `left` (plane `pl`) and
    /// top/bottom context from the two-row buffers `top` and `bot`.
    fn fb(
        &self,
        p: &mut Plane,
        x: usize,
        y: usize,
        w: usize,
        h: usize,
        left: &Backup2x8,
        pl: usize,
        top: &Vec<u16>,
        bot: &Vec<u16>,
        pri: u32,
        sec: u32,
        dir: u8,
        damping: u8,
        edges: u8,
        bdmax: u16,
    )
        requires
            old(p).wf(),
            left.wf(),
            pl < 3,
            w == 4 || w == 8,
            h == 4 || h == 8,
            x + w <= old(p).spec_w(),
            y + h <= old(p).spec_h(),
            dir < 8,
            top.len() == 2 * (w + 4),
            bot.len() == 2 * (w + 4),
        ensures
            final (p).wf(),
            final (p).spec_w() == old(p).spec_w(),
            final (p).spec_h() == old(p).spec_h(),
            final (p).spec_flipped() == old(p).spec_flipped(),
            forall|r: int, c: int|
                0 <= r < old(p).spec_h() && 0 <= c < old(p).spec_w() && !(y <= r < y + h && x <= c
                    < x + w) ==> #[trigger] final (p).view()[r][c] == old(p).view()[r][c],
    ;
}

/// One context cell handed to the filter: a sample of the two source rows
/// when the corresponding side is available, zero otherwise.
pub open spec fn spec_ctx_cell(
    srcv: Seq<Seq<u16>>,
    row: int,
    x0: int,
    w: int,
    edges: u8,
    i: int,
    j: int,
) -> u16 {
    if (j < 2 && edges & CDEF_HAVE_LEFT == 0) || (j >= w + 2 && edges & CDEF_HAVE_RIGHT == 0) {
        0
    } else {
        srcv[row + i][x0 - 2 + j]
    }
}

/// Collect the two context rows `row`, `row + 1` of `src` around columns
/// `x0 - 2 .. x0 + w + 2` into a flat buffer, zero-filling the sides that
/// `edges` marks unavailable.
pub fn gather_ctx_rows(src: &Plane, row: usize, x0: usize, w: usize, edges: u8) -> (r: Vec<u16>)
    requires
        src.wf(),
        w == 4 || w == 8,
        x0 + w + 4 <= usize::MAX,
        row + 2 <= src.spec_h(),
        x0 + w <= src.spec_w(),
        edges & CDEF_HAVE_LEFT != 0 ==> x0 >= 2,
        edges & CDEF_HAVE_RIGHT != 0 ==> x0 + w + 2 <= src.spec_w(),
    ensures
        r.len() == 2 * (w + 4),
        forall|i: int, j: int|
            0 <= i < 2 && 0 <= j < w + 4 ==> #[trigger] r@[i * (w + 4) + j] == spec_ctx_cell(
                src.view(),
                row as int,
                x0 as int,
                w as int,
                edges,
                i,
                j,
            ),
{
    let span = w + 4;
    let mut out: Vec<u16> = Vec::new();
    let mut i: usize = 0;
    while i < 2
        invariant
            src.wf(),
            row + 2 <= src.spec_h(),
            x0 + w <= src.spec_w(),
            edges & CDEF_HAVE_LEFT != 0 ==> x0 >= 2,
            edges & CDEF_HAVE_RIGHT != 0 ==> x0 + w + 2 <= src.spec_w(),
            w == 4 || w == 8,
            x0 + w + 4 <= usize::MAX,
            span == w + 4,
            i <= 2,
            out.len() == i * span,
            forall|i2: int, j2: int|
                0 <= i2 < i && 0 <= j2 < span ==> #[trigger] out@[i2 * span + j2] == spec_ctx_cell(
                    src.view(),
                    row as int,
                    x0 as int,
                    w as int,
                    edges,
                    i2,
                    j2,
                ),
        decreases 2 - i,
    {
        proof {
            assert forall|i2: int| 0 <= i2 < i implies #[trigger] (i2 * span) + span <= i
                * span by {
                assert(i2 * span + span <= i * span) by (nonlinear_arith)
                    requires
                        0 <= i2 < i,
                        0 <= span,
                ;
            }
        }
        let mut j: usize = 0;
        while j < span
            invariant
                src.wf(),
                row + 2 <= src.spec_h(),
                x0 + w <= src.spec_w(),
                edges & CDEF_HAVE_LEFT != 0 ==> x0 >= 2,
                edges & CDEF_HAVE_RIGHT != 0 ==> x0 + w + 2 <= src.spec_w(),
                w == 4 || w == 8,
                x0 + w + 4 <= usize::MAX,
                span == w + 4,
                forall|i2: int| 0 <= i2 < i ==> #[trigger] (i2 * span) + span <= i * span,
                i < 2,
                j <= span,
                out.len() == i * span + j,
                forall|i2: int, j2: int|
                    0 <= i2 < i && 0 <= j2 < span ==> #[trigger] out@[i2 * span + j2]
                        == spec_ctx_cell(src.view(), row as int, x0 as int, w as int, edges, i2, j2),
                forall|j2: int|
                    0 <= j2 < j ==> #[trigger] out@[i * span + j2] == spec_ctx_cell(
                        src.view(),
                        row as int,
                        x0 as int,
                        w as int,
                        edges,
                        i as int,
                        j2,
                    ),
            decreases span - j,
        {
            let v: u16 = if (j < 2 && edges & CDEF_HAVE_LEFT == 0) || (j >= w + 2 && edges
                & CDEF_HAVE_RIGHT == 0) {
                0
            } else {
                src.get(row + i, x0 + j - 2)
            };
            out.push(v);
            j += 1;
        }
        proof {
            assert((i + 1) * span == i * span + span) by (nonlinear_arith);
        }
        i += 1;
    }
    out
}

/// Where a unit's top and bottom context rows come from.
#[derive(Clone, Copy, PartialEq, Eq, Structural)]
pub enum CtxBuf {
    /// The toggled per-row top-line backup written by [`backup2lines`].
    CdefLine,
    /// The resize-aware lowpass line buffer.
    LpfResize,
    /// The padded loop-restoration line buffer.
    LpfPadded,
    /// The frame plane itself, below the unit.
    Frame,
}

/// The resolved context sources of one unit row for one plane.
pub struct CtxSpec {
    pub top_buf: CtxBuf,
    pub top_row: usize,
    pub bot_buf: CtxBuf,
    pub bot_row: usize,
}

/// Resolve the four-way top/bottom branch for a plane.
///
/// With a single thread (`have_tt` false) both context rows come from the
/// backup line and the plane itself.  With tile threading, the first unit
/// row of a starting superblock row pulls its top context from a lowpass
/// line buffer (resize-aware or padded), and the last unit row of a
/// non-starting range pulls its bottom context there, because the
/// neighbouring rows' planes may already be rewritten.
pub fn resolve_ctx(
    have_tt: bool,
    sbrow_start: bool,
    by: usize,
    by_start: usize,
    by_end: usize,
    resize: bool,
    sb128: bool,
    sby: usize,
    is_luma: bool,
    unit_row: usize,
    unit_h: usize,
) -> (r: CtxSpec)
    requires
        sby <= 100000,
        by <= 100000000,
        unit_row + unit_h <= 1000000000,
    ensures
        ({
            let first = have_tt && sbrow_start && by == by_start;
            let last = have_tt && !sbrow_start && by + 2 >= by_end;
            let sbsh = if sb128 {
                8int
            } else {
                4int
            };
            &&& (!have_tt) ==> r.top_buf is CdefLine && r.top_row == 0 && r.bot_buf is Frame
                && r.bot_row == unit_row + unit_h
            &&& (first && resize) ==> r.top_buf is LpfResize && (sby >= 1 ==> r.top_row == (sby - 1)
                * 4)
            &&& (first && !resize) ==> r.top_buf is LpfPadded && (sby * sbsh >= 4 ==> r.top_row
                == sby * sbsh - 4)
            &&& first ==> r.bot_buf is Frame && r.bot_row == unit_row + unit_h
            &&& (have_tt && !first && !last) ==> r.top_buf is CdefLine && r.top_row == sby * (if is_luma {
                4int
            } else {
                8int
            }) && r.bot_buf is Frame && r.bot_row == unit_row + unit_h
            &&& last ==> r.top_buf is CdefLine && r.top_row == sby * (if is_luma {
                4int
            } else {
                8int
            })
            &&& (last && resize) ==> r.bot_buf is LpfResize && r.bot_row == sby * 4 + 2
            &&& (last && !resize) ==> r.bot_buf is LpfPadded && r.bot_row == sby * sbsh + (if sb128 {
                4int
            } else {
                0int
            }) + 2
        }),
{
    let sbsh: usize = if sb128 {
        8
    } else {
        4
    };
    if !have_tt {
        CtxSpec {
            top_buf: CtxBuf::CdefLine,
            top_row: 0,
            bot_buf: CtxBuf::Frame,
            bot_row: unit_row + unit_h,
        }
    } else if sbrow_start && by == by_start {
        if resize {
            CtxSpec {
                top_buf: CtxBuf::LpfResize,
                top_row: if sby >= 1 {
                    (sby - 1) * 4
                } else {
                    0
                },
                bot_buf: CtxBuf::Frame,
                bot_row: unit_row + unit_h,
            }
        } else {
            let base = sby * sbsh;
            CtxSpec {
                top_buf: CtxBuf::LpfPadded,
                top_row: if base >= 4 {
                    base - 4
                } else {
                    0
                },
                bot_buf: CtxBuf::Frame,
                bot_row: unit_row + unit_h,
            }
        }
    } else if !sbrow_start && by + 2 >= by_end {
        let top_row = sby * (if is_luma {
            4
        } else {
            8
        });
        if resize {
            CtxSpec {
                top_buf: CtxBuf::CdefLine,
                top_row,
                bot_buf: CtxBuf::LpfResize,
                bot_row: sby * 4 + 2,
            }
        } else {
            CtxSpec {
                top_buf: CtxBuf::CdefLine,
                top_row,
                bot_buf: CtxBuf::LpfPadded,
                bot_row: sby * sbsh + (if sb128 {
                    4
                } else {
                    0
                }) + 2,
            }
        }
    } else {
        CtxSpec {
            top_buf: CtxBuf::CdefLine,
            top_row: sby * (if is_luma {
                4
            } else {
                8
            }),
            bot_buf: CtxBuf::Frame,
            bot_row: unit_row + unit_h,
        }
    }
}


/// Frame-level CDEF configuration, fixed for the whole pass.
pub struct CdefCfg {
    pub layout: Rav1dPixelLayout,
    /// Damping from the frame header, before bit-depth adjustment.
    pub damping: u8,
    /// `bitdepth - 8`.
    pub s: u8,
    pub bdmax: u16,
    /// Frame width and height in 4-pixel blocks.
    pub bw: usize,
    pub bh: usize,
    pub sb128w: usize,
    pub sb128: bool,
    pub resize: bool,
    pub have_tt: bool,
    /// The frame's strength tables, eight entries each.
    pub y_strength: Vec<u8>,
    pub uv_strength: Vec<u8>,
}

impl CdefCfg {
    pub open spec fn wf(self) -> bool {
        &&& self.s <= 8
        &&& 3 <= self.damping <= 6
        &&& self.y_strength.len() == 8
        &&& self.uv_strength.len() == 8
        &&& (forall|i: int| 0 <= i < 8 ==> self.y_strength[i] < 64)
        &&& (forall|i: int| 0 <= i < 8 ==> self.uv_strength[i] < 64)
        &&& self.bw <= 100000
        &&& self.bh <= 100000
        &&& self.sb128w <= 100000
        &&& (self.layout is I400 ==> forall|i: int| 0 <= i < 8 ==> self.uv_strength[i] == 0)
    }
}

/// The line buffers a CDEF pass reads its cross-row context from: the two
/// toggled top-line backup slots per plane, the resize-aware lowpass
/// lines, and the padded loop-restoration lines.
pub struct CdefLineBuffers {
    pub line_y_a: Plane,
    pub line_u_a: Plane,
    pub line_v_a: Plane,
    pub line_y_b: Plane,
    pub line_u_b: Plane,
    pub line_v_b: Plane,
    pub lpf_y: Plane,
    pub lpf_u: Plane,
    pub lpf_v: Plane,
    pub lr_y: Plane,
    pub lr_u: Plane,
    pub lr_v: Plane,
}

impl CdefLineBuffers {
    pub open spec fn wf(self) -> bool {
        &&& self.line_y_a.wf() && self.line_u_a.wf() && self.line_v_a.wf()
        &&& self.line_y_b.wf() && self.line_u_b.wf() && self.line_v_b.wf()
        &&& self.lpf_y.wf() && self.lpf_u.wf() && self.lpf_v.wf()
        &&& self.lr_y.wf() && self.lr_u.wf() && self.lr_v.wf()
    }
}

/// A zero-filled context buffer for a side that has no neighbour.
fn zero_ctx(w: usize) -> (r: Vec<u16>)
    requires
        w == 4 || w == 8,
    ensures
        r.len() == 2 * (w + 4),
        forall|k: int| 0 <= k < r.len() ==> r@[k] == 0,
{
    let n = 2 * (w + 4);
    let mut out: Vec<u16> = Vec::new();
    let mut i: usize = 0;
    while i < n
        invariant
            out.len() == i,
            i <= n,
            forall|k: int| 0 <= k < i ==> out@[k] == 0,
        decreases n - i,
    {
        out.push(0);
        i += 1;
    }
    out
}

/// Everything one plane needs so a unit at `(x, row)` can be filtered:
/// the unit and its gated side context fit the plane, the line buffers
/// match its width, and the resolved top/bottom rows exist wherever the
/// corresponding edge is available.
pub open spec fn plane_ctx_ok(
    p: Plane,
    line: Plane,
    lpf: Plane,
    lr: Plane,
    have_tt: bool,
    sbrow_start: bool,
    by: int,
    by_start: int,
    by_end: int,
    resize: bool,
    sb128: bool,
    sby: int,
    is_luma: bool,
    x: int,
    row: int,
    w: int,
    h: int,
    edges: u8,
) -> bool {
    let first = have_tt && sbrow_start && by == by_start;
    let last = have_tt && !sbrow_start && by + 2 >= by_end;
    let line_row = if have_tt {
        sby * (if is_luma {
            4int
        } else {
            8int
        })
    } else {
        0int
    };
    let sbsh = if sb128 {
        8int
    } else {
        4int
    };
    &&& x + w <= p.spec_w()
    &&& row + h <= p.spec_h()
    &&& x + w + 4 <= usize::MAX
    &&& row + h <= 1000000000
    &&& line.spec_w() == p.spec_w()
    &&& lpf.spec_w() == p.spec_w()
    &&& lr.spec_w() == p.spec_w()
    &&& (edges & CDEF_HAVE_LEFT != 0 ==> x >= 2)
    &&& (edges & CDEF_HAVE_RIGHT != 0 ==> x + w + 2 <= p.spec_w())
    &&& ((edges & CDEF_HAVE_TOP != 0 && first && resize) ==> sby >= 1 && (sby - 1) * 4 + 2
        <= lpf.spec_h())
    &&& ((edges & CDEF_HAVE_TOP != 0 && first && !resize) ==> sby * sbsh >= 4 && sby * sbsh - 2
        <= lr.spec_h())
    &&& ((edges & CDEF_HAVE_TOP != 0 && !first) ==> line_row + 2 <= line.spec_h())
    &&& ((edges & CDEF_HAVE_BOTTOM != 0 && last && resize) ==> sby * 4 + 4 <= lpf.spec_h())
    &&& ((edges & CDEF_HAVE_BOTTOM != 0 && last && !resize) ==> sby * sbsh + (if sb128 {
        4int
    } else {
        0int
    }) + 4 <= lr.spec_h())
    &&& ((edges & CDEF_HAVE_BOTTOM != 0 && !last) ==> row + h + 2 <= p.spec_h())
}

/// The primary and secondary strengths a strength byte encodes, scaled to
/// the bit depth: the primary level is the byte's upper bits, the
/// secondary its lower two bits with the reserved value 3 mapped to 4.
pub fn cdef_levels(lvl: u8, s: u8) -> (r: (u32, u32))
    requires
        lvl < 64,
        s <= 8,
    ensures
        r.0 == (lvl as int / 4) * vstd::arithmetic::power2::pow2(s as nat),
        r.1 == (if lvl as int % 4 == 3 {
            4int
        } else {
            lvl as int % 4
        }) * vstd::arithmetic::power2::pow2(s as nat),
        r.0 <= 3840,
        r.1 <= 1024,
        lvl == 0 ==> r.0 == 0 && r.1 == 0,
{
    let sh = crate::loopfilter::one_shl(s);
    proof {
        assert(lvl & 3 == lvl % 4) by (bit_vector);
        assert((lvl as int / 4) * sh <= 3840 && 4 * sh <= 1024) by (nonlinear_arith)
            requires
                lvl < 64,
                1 <= sh <= 256,
        ;
        assert((lvl as int % 4) * sh <= 1024) by (nonlinear_arith)
            requires
                lvl as int % 4 < 4,
                0 <= lvl as int % 4,
                1 <= sh <= 256,
        ;
    }
    proof {
        assert(0 * vstd::arithmetic::power2::pow2(s as nat) == 0) by (nonlinear_arith);
    }
    let pri: u32 = (lvl / 4) as u32 * sh;
    let mut sec: u32 = (lvl & 3) as u32;
    if sec == 3 {
        sec = 4;
    }
    sec = sec * sh;
    (pri, sec)
}

/// Filter one `w`×`h` unit of a single plane: resolve where its top and
/// bottom context lives, gather those rows (zero-filled on unavailable
/// sides), and run the directional filter kernel in place.  Only the
/// unit's own samples change.
#[verifier::rlimit(60)]
fn cdef_filter_unit_plane<K: CdefKernel>(
    k: &K,
    p: &mut Plane,
    line: &Plane,
    lpf: &Plane,
    lr: &Plane,
    left: &Backup2x8,
    pl: usize,
    x: usize,
    row: usize,
    w: usize,
    h: usize,
    have_tt: bool,
    sbrow_start: bool,
    by: usize,
    by_start: usize,
    by_end: usize,
    resize: bool,
    sb128: bool,
    sby: usize,
    is_luma: bool,
    pri: u32,
    sec: u32,
    dir: u8,
    damping: u8,
    edges: u8,
    bdmax: u16,
)
    requires
        old(p).wf(),
        line.wf(),
        lpf.wf(),
        lr.wf(),
        left.wf(),
        pl < 3,
        w == 4 || w == 8,
        h == 4 || h == 8,
        dir < 8,
        sby <= 100000,
        by <= 100000000,
        plane_ctx_ok(
            *old(p),
            *line,
            *lpf,
            *lr,
            have_tt,
            sbrow_start,
            by as int,
            by_start as int,
            by_end as int,
            resize,
            sb128,
            sby as int,
            is_luma,
            x as int,
            row as int,
            w as int,
            h as int,
            edges,
        ),
    ensures
        final (p).wf(),
        final (p).spec_w() == old(p).spec_w(),
        final (p).spec_h() == old(p).spec_h(),
        final (p).spec_flipped() == old(p).spec_flipped(),
        forall|r: int, c: int|
            0 <= r < old(p).spec_h() && 0 <= c < old(p).spec_w() && !(row <= r < row + h && x <= c
                < x + w) ==> #[trigger] final (p).view()[r][c] == old(p).view()[r][c],
{
    let top: Vec<u16> = if edges & CDEF_HAVE_TOP != 0 {
        let ctx = resolve_ctx(
            have_tt,
            sbrow_start,
            by,
            by_start,
            by_end,
            resize,
            sb128,
            sby,
            is_luma,
            row,
            h,
        );
        match ctx.top_buf {
            CtxBuf::CdefLine => gather_ctx_rows(line, ctx.top_row, x, w, edges),
            CtxBuf::LpfResize => gather_ctx_rows(lpf, ctx.top_row, x, w, edges),
            CtxBuf::LpfPadded => gather_ctx_rows(lr, ctx.top_row, x, w, edges),
            CtxBuf::Frame => zero_ctx(w),
        }
    } else {
        zero_ctx(w)
    };
    let bot: Vec<u16> = if edges & CDEF_HAVE_BOTTOM != 0 {
        let ctx = resolve_ctx(
            have_tt,
            sbrow_start,
            by,
            by_start,
            by_end,
            resize,
            sb128,
            sby,
            is_luma,
            row,
            h,
        );
        match ctx.bot_buf {
            CtxBuf::Frame => gather_ctx_rows(p, ctx.bot_row, x, w, edges),
            CtxBuf::LpfResize => gather_ctx_rows(lpf, ctx.bot_row, x, w, edges),
            CtxBuf::LpfPadded => gather_ctx_rows(lr, ctx.bot_row, x, w, edges),
            CtxBuf::CdefLine => zero_ctx(w),
        }
    } else {
        zero_ctx(w)
    };
    k.fb(p, x, row, w, h, left, pl, &top, &bot, pri, sec, dir, damping, edges, bdmax);
}


/// The chroma unit width under the layout's horizontal subsampling.
pub open spec fn spec_uv_w(layout: Rav1dPixelLayout) -> int {
    if layout.spec_ss_hor() == 1 {
        4
    } else {
        8
    }
}

/// The chroma unit height under the layout's vertical subsampling.
pub open spec fn spec_uv_h(layout: Rav1dPixelLayout) -> int {
    if layout.spec_ss_ver() == 1 {
        4
    } else {
        8
    }
}

/// The chroma column of a luma column under the layout's horizontal
/// subsampling.
pub open spec fn spec_uv_col(layout: Rav1dPixelLayout, bx: int) -> int {
    if layout.spec_ss_hor() == 1 {
        bx * 2
    } else {
        bx * 4
    }
}

/// The chroma row of a luma block row under the layout's vertical
/// subsampling.
pub open spec fn spec_uv_row(layout: Rav1dPixelLayout, by: int) -> int {
    if layout.spec_ss_ver() == 1 {
        by * 2
    } else {
        by * 4
    }
}

/// Process one CDEF unit: snapshot the left/right columns it still needs,
/// search the luma direction once, adapt the primary strength to the local
/// variance, and filter luma and — subsampling-aware — both chroma planes
/// in place.
///
/// A zero luma level leaves luma untouched; a zero chroma level (always
/// the case for monochrome frames) leaves both chroma planes untouched.
#[verifier::rlimit(100)]
#[verifier::spinoff_prover]
fn cdef_filter_unit<K: CdefKernel>(
    k: &K,
    py: &mut Plane,
    pu: &mut Plane,
    pv: &mut Plane,
    bufs: &CdefLineBuffers,
    cfg: &CdefCfg,
    bak0: &mut Backup2x8,
    bak1: &mut Backup2x8,
    bit: bool,
    y_lvl: u8,
    uv_lvl: u8,
    do_left: u8,
    by: usize,
    by_start: usize,
    by_end: usize,
    sbrow_start: bool,
    sby: usize,
    bx: usize,
    tf: bool,
    edges: u8,
)
    requires
        old(py).wf(),
        old(pu).wf(),
        old(pv).wf(),
        old(bak0).wf(),
        old(bak1).wf(),
        bufs.wf(),
        cfg.wf(),
        y_lvl < 64,
        uv_lvl < 64,
        do_left <= 3,
        uv_lvl != 0 ==> !(cfg.layout is I400),
        sby <= 100000,
        by <= 100000000,
        bx <= 1000000000,
        plane_ctx_ok(
            *old(py),
            if tf {
                bufs.line_y_b
            } else {
                bufs.line_y_a
            },
            bufs.lpf_y,
            bufs.lr_y,
            cfg.have_tt,
            sbrow_start,
            by as int,
            by_start as int,
            by_end as int,
            cfg.resize,
            cfg.sb128,
            sby as int,
            true,
            bx * 4,
            by * 4,
            8,
            8,
            edges,
        ),
        edges & CDEF_HAVE_LEFT != 0 ==> bx >= 1,
        uv_lvl != 0 ==> plane_ctx_ok(
            *old(pu),
            if tf {
                bufs.line_u_b
            } else {
                bufs.line_u_a
            },
            bufs.lpf_u,
            bufs.lr_u,
            cfg.have_tt,
            sbrow_start,
            by as int,
            by_start as int,
            by_end as int,
            cfg.resize,
            cfg.sb128,
            sby as int,
            false,
            spec_uv_col(cfg.layout, bx as int),
            spec_uv_row(cfg.layout, by as int),
            spec_uv_w(cfg.layout),
            spec_uv_h(cfg.layout),
            edges,
        ),
        uv_lvl != 0 ==> plane_ctx_ok(
            *old(pv),
            if tf {
                bufs.line_v_b
            } else {
                bufs.line_v_a
            },
            bufs.lpf_v,
            bufs.lr_v,
            cfg.have_tt,
            sbrow_start,
            by as int,
            by_start as int,
            by_end as int,
            cfg.resize,
            cfg.sb128,
            sby as int,
            false,
            spec_uv_col(cfg.layout, bx as int),
            spec_uv_row(cfg.layout, by as int),
            spec_uv_w(cfg.layout),
            spec_uv_h(cfg.layout),
            edges,
        ),
        // The chroma snapshots read two columns left of the unit and two
        // left of its right neighbour; monochrome frames skip them.
        do_left & BACKUP_2X8_UV != 0 ==> uv_lvl != 0,
        (!(cfg.layout is I400) && uv_lvl != 0) ==> {
            &&& spec_uv_row(cfg.layout, by as int) + (spec_uv_h(cfg.layout)) <= old(pu).spec_h()
            &&& spec_uv_row(cfg.layout, by as int) + (spec_uv_h(cfg.layout)) <= old(pv).spec_h()
            &&& old(pu).spec_w() == old(pv).spec_w()
            &&& old(pu).spec_h() == old(pv).spec_h()
        },
    ensures
        final (py).wf() && final (pu).wf() && final (pv).wf(),
        final (py).spec_w() == old(py).spec_w() && final (py).spec_h() == old(py).spec_h() && final (py).spec_flipped() == old(py).spec_flipped(),
        final (pu).spec_w() == old(pu).spec_w() && final (pu).spec_h() == old(pu).spec_h() && final (pu).spec_flipped() == old(pu).spec_flipped(),
        final (pv).spec_w() == old(pv).spec_w() && final (pv).spec_h() == old(pv).spec_h() && final (pv).spec_flipped() == old(pv).spec_flipped(),
        final (bak0).wf() && final (bak1).wf(),
        forall|r: int, c: int|
            0 <= r < old(py).spec_h() && 0 <= c < old(py).spec_w() && !(by * 4 <= r < by * 4 + 8
                && bx * 4 <= c < bx * 4 + 8) ==> #[trigger] final (py).view()[r][c] == old(py).view()[r][c],
        y_lvl == 0 ==> *final (py) == *old(py),
        uv_lvl == 0 ==> *final (pu) == *old(pu) && *final (pv) == *old(pv),
        cfg.layout is I400 ==> *final (pu) == *old(pu) && *final (pv) == *old(pv),
        uv_lvl != 0 ==> {
            let ucol = spec_uv_col(cfg.layout, bx as int);
            let urow = spec_uv_row(cfg.layout, by as int);
            let uw = spec_uv_w(cfg.layout);
            let uh = spec_uv_h(cfg.layout);
            &&& (forall|r: int, c: int|
                0 <= r < old(pu).spec_h() && 0 <= c < old(pu).spec_w() && !(urow <= r < urow + uh
                    && ucol <= c < ucol + uw) ==> #[trigger] final (pu).view()[r][c] == old(pu).view()[r][c])
            &&& (forall|r: int, c: int|
                0 <= r < old(pv).spec_h() && 0 <= c < old(pv).spec_w() && !(urow <= r < urow + uh
                    && ucol <= c < ucol + uw) ==> #[trigger] final (pv).view()[r][c] == old(pv).view()[r][c])
        },
{
    let x = bx * 4;
    let row = by * 4;
    let ss_ver = cfg.layout.ss_ver();
    let ss_hor = cfg.layout.ss_hor();
    let uv_col: usize = if ss_hor == 1 {
        bx * 2
    } else {
        bx * 4
    };
    let uv_row: usize = if ss_ver == 1 {
        by * 2
    } else {
        by * 4
    };
    let yb: u8 = if y_lvl != 0 {
        1u8
    } else {
        0u8
    };
    let ub: u8 = if uv_lvl != 0 {
        2u8
    } else {
        0u8
    };
    let flag: u8 = yb | ub;
    proof {
        assert((bx * 4 + 8) / 2 == bx * 2 + 4) by (nonlinear_arith);
        assert(bx * 4 / 2 == bx * 2) by (nonlinear_arith);
        assert((yb | ub) & 1u8 == yb && (yb | ub) & 2u8 == ub) by (bit_vector)
            requires
                (yb == 0 || yb == 1) && (ub == 0 || ub == 2),
        ;
        assert(flag & BACKUP_2X8_Y == yb && flag & BACKUP_2X8_UV == ub);
    }
    if do_left != 0 && edges & CDEF_HAVE_LEFT != 0 {
        if bit {
            backup2x8(bak1, py, pu, pv, row, uv_row, x, 0, cfg.layout, do_left);
        } else {
            backup2x8(bak0, py, pu, pv, row, uv_row, x, 0, cfg.layout, do_left);
        }
    }
    if edges & CDEF_HAVE_RIGHT != 0 {
        if bit {
            backup2x8(bak0, py, pu, pv, row, uv_row, x, 8, cfg.layout, flag);
        } else {
            backup2x8(bak1, py, pu, pv, row, uv_row, x, 8, cfg.layout, flag);
        }
    }
    let levels_y = cdef_levels(y_lvl, cfg.s);
    let y_pri: u32 = levels_y.0;
    let y_sec: u32 = levels_y.1;
    let levels_uv = cdef_levels(uv_lvl, cfg.s);
    let uv_pri: u32 = levels_uv.0;
    let uv_sec: u32 = levels_uv.1;
    let mut dir: u8 = 0;
    let mut variance: u32 = 0;
    if y_pri != 0 || uv_pri != 0 {
        let dv = k.dir(py, x, row, cfg.bdmax);
        dir = dv.0;
        variance = dv.1;
    }
    let damping_y: u8 = cfg.damping + cfg.s;
    if y_pri != 0 {
        let adj = adjust_strength(y_pri, variance);
        if adj != 0 || y_sec != 0 {
            let line_y: &Plane = if tf {
                &bufs.line_y_b
            } else {
                &bufs.line_y_a
            };
            let left: &Backup2x8 = if bit {
                &*bak1
            } else {
                &*bak0
            };
            cdef_filter_unit_plane(
                k,
                py,
                line_y,
                &bufs.lpf_y,
                &bufs.lr_y,
                left,
                0,
                x,
                row,
                8,
                8,
                cfg.have_tt,
                sbrow_start,
                by,
                by_start,
                by_end,
                cfg.resize,
                cfg.sb128,
                sby,
                true,
                adj,
                y_sec,
                dir,
                damping_y,
                edges,
                cfg.bdmax,
            );
        }
    } else if y_sec != 0 {
        let line_y: &Plane = if tf {
            &bufs.line_y_b
        } else {
            &bufs.line_y_a
        };
        let left: &Backup2x8 = if bit {
            &*bak1
        } else {
            &*bak0
        };
        cdef_filter_unit_plane(
            k,
            py,
            line_y,
            &bufs.lpf_y,
            &bufs.lr_y,
            left,
            0,
            x,
            row,
            8,
            8,
            cfg.have_tt,
            sbrow_start,
            by,
            by_start,
            by_end,
            cfg.resize,
            cfg.sb128,
            sby,
            true,
            0,
            y_sec,
            0,
            damping_y,
            edges,
            cfg.bdmax,
        );
    }
    if uv_lvl != 0 {
        let left: &Backup2x8 = if bit {
            &*bak1
        } else {
            &*bak0
        };
        cdef_filter_unit_uv(
            k,
            pu,
            pv,
            bufs,
            cfg,
            left,
            tf,
            uv_pri,
            uv_sec,
            dir,
            damping_y,
            uv_col,
            uv_row,
            sbrow_start,
            by,
            by_start,
            by_end,
            sby,
            edges,
        );
    }
}

/// Filter the chroma half of one CDEF unit: remap the luma direction for
/// the layout's subsampling and run the kernel on both chroma planes.
#[verifier::rlimit(100)]
#[verifier::spinoff_prover]
fn cdef_filter_unit_uv<K: CdefKernel>(
    k: &K,
    pu: &mut Plane,
    pv: &mut Plane,
    bufs: &CdefLineBuffers,
    cfg: &CdefCfg,
    left: &Backup2x8,
    tf: bool,
    uv_pri: u32,
    uv_sec: u32,
    dir: u8,
    damping_y: u8,
    uv_col: usize,
    uv_row: usize,
    sbrow_start: bool,
    by: usize,
    by_start: usize,
    by_end: usize,
    sby: usize,
    edges: u8,
)
    requires
        old(pu).wf(),
        old(pv).wf(),
        bufs.wf(),
        cfg.wf(),
        left.wf(),
        !(cfg.layout is I400),
        dir < 8,
        damping_y >= 1,
        sby <= 100000,
        by <= 100000000,
        plane_ctx_ok(
            *old(pu),
            if tf {
                bufs.line_u_b
            } else {
                bufs.line_u_a
            },
            bufs.lpf_u,
            bufs.lr_u,
            cfg.have_tt,
            sbrow_start,
            by as int,
            by_start as int,
            by_end as int,
            cfg.resize,
            cfg.sb128,
            sby as int,
            false,
            uv_col as int,
            uv_row as int,
            spec_uv_w(cfg.layout),
            spec_uv_h(cfg.layout),
            edges,
        ),
        plane_ctx_ok(
            *old(pv),
            if tf {
                bufs.line_v_b
            } else {
                bufs.line_v_a
            },
            bufs.lpf_v,
            bufs.lr_v,
            cfg.have_tt,
            sbrow_start,
            by as int,
            by_start as int,
            by_end as int,
            cfg.resize,
            cfg.sb128,
            sby as int,
            false,
            uv_col as int,
            uv_row as int,
            spec_uv_w(cfg.layout),
            spec_uv_h(cfg.layout),
            edges,
        ),
    ensures
        final (pu).wf() && final (pv).wf(),
        final (pu).spec_w() == old(pu).spec_w() && final (pu).spec_h() == old(pu).spec_h() && final (pu).spec_flipped() == old(pu).spec_flipped(),
        final (pv).spec_w() == old(pv).spec_w() && final (pv).spec_h() == old(pv).spec_h() && final (pv).spec_flipped() == old(pv).spec_flipped(),
        forall|r: int, c: int|
            0 <= r < old(pu).spec_h() && 0 <= c < old(pu).spec_w() && !(uv_row <= r < uv_row
                + spec_uv_h(cfg.layout) && uv_col <= c < uv_col + spec_uv_w(cfg.layout))
                ==> #[trigger] final (pu).view()[r][c] == old(pu).view()[r][c],
        forall|r: int, c: int|
            0 <= r < old(pv).spec_h() && 0 <= c < old(pv).spec_w() && !(uv_row <= r < uv_row
                + spec_uv_h(cfg.layout) && uv_col <= c < uv_col + spec_uv_w(cfg.layout))
                ==> #[trigger] final (pv).view()[r][c] == old(pv).view()[r][c],
{
    let uvdir: u8 = if uv_pri != 0 {
        uv_dir(matches!(cfg.layout, Rav1dPixelLayout::I422), dir)
    } else {
        0
    };
    let damping_uv: u8 = damping_y - 1;
    let w_uv: usize = if cfg.layout.ss_hor() == 1 {
        4
    } else {
        8
    };
    let h_uv: usize = if cfg.layout.ss_ver() == 1 {
        4
    } else {
        8
    };
    let line_u: &Plane = if tf {
        &bufs.line_u_b
    } else {
        &bufs.line_u_a
    };
    cdef_filter_unit_plane(
        k,
        pu,
        line_u,
        &bufs.lpf_u,
        &bufs.lr_u,
        left,
        1,
        uv_col,
        uv_row,
        w_uv,
        h_uv,
        cfg.have_tt,
        sbrow_start,
        by,
        by_start,
        by_end,
        cfg.resize,
        cfg.sb128,
        sby,
        false,
        uv_pri,
        uv_sec,
        uvdir,
        damping_uv,
        edges,
        cfg.bdmax,
    );
    let line_v: &Plane = if tf {
        &bufs.line_v_b
    } else {
        &bufs.line_v_a
    };
    cdef_filter_unit_plane(
        k,
        pv,
        line_v,
        &bufs.lpf_v,
        &bufs.lr_v,
        left,
        2,
        uv_col,
        uv_row,
        w_uv,
        h_uv,
        cfg.have_tt,
        sbrow_start,
        by,
        by_start,
        by_end,
        cfg.resize,
        cfg.sb128,
        sby,
        false,
        uv_pri,
        uv_sec,
        uvdir,
        damping_uv,
        edges,
        cfg.bdmax,
    );
}


/// The buffer-coverage preconditions one superblock-row pass needs, stated
/// once over the frame planes, the line buffers and the row geometry.
pub open spec fn cdef_row_ctx_ok(
    py: Plane,
    pu: Plane,
    pv: Plane,
    bufs: CdefLineBuffers,
    cfg: CdefCfg,
    by: int,
    by_start: int,
    by_end: int,
    sbrow_start: bool,
    sby: int,
    tf: bool,
    edges: u8,
) -> bool {
    let first = cfg.have_tt && sbrow_start && by == by_start;
    let last = cfg.have_tt && !sbrow_start && by + 2 >= by_end;
    let line_y = if tf {
        bufs.line_y_b
    } else {
        bufs.line_y_a
    };
    let line_u = if tf {
        bufs.line_u_b
    } else {
        bufs.line_u_a
    };
    let line_v = if tf {
        bufs.line_v_b
    } else {
        bufs.line_v_a
    };
    let y_line_row = if cfg.have_tt {
        sby * 4
    } else {
        0int
    };
    let uv_line_row = if cfg.have_tt {
        sby * 8
    } else {
        0int
    };
    let sbsh = if cfg.sb128 {
        8int
    } else {
        4int
    };
    &&& py.wf() && pu.wf() && pv.wf()
    &&& bufs.wf()
    &&& py.spec_w() >= cfg.bw * 4 + 4
    &&& by * 4 + 8 <= py.spec_h()
    &&& pu.spec_w() == pv.spec_w() && pu.spec_h() == pv.spec_h()
    &&& pu.spec_w() >= spec_uv_col(cfg.layout, cfg.bw as int) + spec_uv_w(cfg.layout)
    &&& spec_uv_row(cfg.layout, by) + spec_uv_h(cfg.layout) <= pu.spec_h()
    &&& line_y.spec_w() == py.spec_w() && bufs.lpf_y.spec_w() == py.spec_w()
        && bufs.lr_y.spec_w() == py.spec_w()
    &&& line_u.spec_w() == pu.spec_w() && bufs.lpf_u.spec_w() == pu.spec_w()
        && bufs.lr_u.spec_w() == pu.spec_w()
    &&& line_v.spec_w() == pv.spec_w() && bufs.lpf_v.spec_w() == pv.spec_w()
        && bufs.lr_v.spec_w() == pv.spec_w()
    &&& ((edges & CDEF_HAVE_TOP != 0 && first && cfg.resize) ==> sby >= 1 && (sby - 1) * 4 + 2
        <= bufs.lpf_y.spec_h() && (sby - 1) * 4 + 2 <= bufs.lpf_u.spec_h() && (sby - 1) * 4 + 2
        <= bufs.lpf_v.spec_h())
    &&& ((edges & CDEF_HAVE_TOP != 0 && first && !cfg.resize) ==> sby * sbsh >= 4 && sby * sbsh - 2
        <= bufs.lr_y.spec_h() && sby * sbsh - 2 <= bufs.lr_u.spec_h() && sby * sbsh - 2
        <= bufs.lr_v.spec_h())
    &&& ((edges & CDEF_HAVE_TOP != 0 && !first) ==> y_line_row + 2 <= line_y.spec_h() && uv_line_row
        + 2 <= line_u.spec_h() && uv_line_row + 2 <= line_v.spec_h())
    &&& ((edges & CDEF_HAVE_BOTTOM != 0 && last && cfg.resize) ==> sby * 4 + 4
        <= bufs.lpf_y.spec_h() && sby * 4 + 4 <= bufs.lpf_u.spec_h() && sby * 4 + 4
        <= bufs.lpf_v.spec_h())
    &&& ((edges & CDEF_HAVE_BOTTOM != 0 && last && !cfg.resize) ==> sby * sbsh + (if cfg.sb128 {
        4int
    } else {
        0int
    }) + 4 <= bufs.lr_y.spec_h() && sby * sbsh + (if cfg.sb128 {
        4int
    } else {
        0int
    }) + 4 <= bufs.lr_u.spec_h() && sby * sbsh + (if cfg.sb128 {
        4int
    } else {
        0int
    }) + 4 <= bufs.lr_v.spec_h())
    &&& ((edges & CDEF_HAVE_BOTTOM != 0 && !last) ==> by * 4 + 10 <= py.spec_h() && spec_uv_row(
        cfg.layout,
        by,
    ) + spec_uv_h(cfg.layout) + 2 <= pu.spec_h())
}

/// Does the no-skip word select the 8-pixel unit pair starting at block
/// column `bx`?  Two mask bits cover each pair.
pub open spec fn spec_unit_noskip(noskip: u32, bx: int) -> bool {
    noskip & (3u32 << ((bx % 32) as u32)) != 0
}

/// Every luma column of the unit pair at block column `bx` maps back to
/// that pair's no-skip bit.
proof fn lemma_luma_unit_bits(noskip: u32, bx: int)
    requires
        bx % 2 == 0,
        0 <= bx,
        noskip & (3u32 << ((bx % 32) as u32)) != 0,
    ensures
        forall|c: int|
            bx * 4 <= c < bx * 4 + 8 ==> 2 * (c / 8) == bx && #[trigger] spec_unit_noskip(
                noskip,
                2 * (c / 8),
            ),
{
    let m = bx / 2;
    assert(2 * m == bx) by {
        vstd::arithmetic::div_mod::lemma_fundamental_div_mod(bx, 2);
    }
    assert forall|c: int| bx * 4 <= c < bx * 4 + 8 implies 2 * (c / 8) == bx
        && #[trigger] spec_unit_noskip(noskip, 2 * (c / 8)) by {
        assert(8 * m <= c < 8 * m + 8) by (nonlinear_arith)
            requires
                2 * m == bx,
                bx * 4 <= c < bx * 4 + 8,
        ;
        lemma_div_multiples_vanish_fancy(m, c - 8 * m, 8);
        assert(c / 8 == m);
    }
}

/// Every chroma column of the unit pair at block column `bx` maps back to
/// that pair's no-skip bit, and the pair's chroma columns stay inside the
/// superblock's chroma column range.
proof fn lemma_uv_unit_cols(layout: Rav1dPixelLayout, noskip: u32, sbx: int, bx: int)
    requires
        bx % 2 == 0,
        0 <= sbx,
        sbx * 16 <= bx,
        bx + 2 <= sbx * 16 + 16,
        noskip & (3u32 << ((bx % 32) as u32)) != 0,
    ensures
        spec_uv_col(layout, sbx * 16) <= spec_uv_col(layout, bx),
        spec_uv_col(layout, bx) + spec_uv_w(layout) <= spec_uv_col(layout, sbx * 16 + 16),
        spec_uv_col(layout, bx + 2) == spec_uv_col(layout, bx) + spec_uv_w(layout),
        forall|c: int|
            spec_uv_col(layout, bx) <= c < spec_uv_col(layout, bx) + spec_uv_w(layout) ==> 2 * (c
                / spec_uv_w(layout)) == bx && #[trigger] spec_unit_noskip(
                noskip,
                2 * (c / spec_uv_w(layout)),
            ),
{
    let m = bx / 2;
    assert(2 * m == bx) by {
        vstd::arithmetic::div_mod::lemma_fundamental_div_mod(bx, 2);
    }
    let uvw = spec_uv_w(layout);
    assert(spec_uv_col(layout, bx) == uvw * m && spec_uv_col(layout, bx + 2) == uvw * m + uvw
        && spec_uv_col(layout, sbx * 16) <= uvw * m && uvw * m + uvw <= spec_uv_col(
        layout,
        sbx * 16 + 16,
    )) by (nonlinear_arith)
        requires
            uvw == spec_uv_w(layout),
            (layout.spec_ss_hor() == 1 ==> uvw == 4 && spec_uv_col(layout, bx) == bx * 2
                && spec_uv_col(layout, bx + 2) == (bx + 2) * 2 && spec_uv_col(layout, sbx * 16)
                == sbx * 32 && spec_uv_col(layout, sbx * 16 + 16) == (sbx * 16 + 16) * 2),
            (layout.spec_ss_hor() != 1 ==> uvw == 8 && spec_uv_col(layout, bx) == bx * 4
                && spec_uv_col(layout, bx + 2) == (bx + 2) * 4 && spec_uv_col(layout, sbx * 16)
                == sbx * 64 && spec_uv_col(layout, sbx * 16 + 16) == (sbx * 16 + 16) * 4),
            2 * m == bx,
            sbx * 16 <= bx,
            bx + 2 <= sbx * 16 + 16,
    ;
    assert forall|c: int|
        spec_uv_col(layout, bx) <= c < spec_uv_col(layout, bx) + uvw implies 2 * (c / uvw) == bx
        && #[trigger] spec_unit_noskip(noskip, 2 * (c / uvw)) by {
        lemma_div_multiples_vanish_fancy(m, c - uvw * m, uvw as int);
        assert(c / uvw == m);
    }
}

/// Run CDEF over one 64-pixel superblock column of the current block-row
/// pair.
///
/// A block with no strength index, or whose luma and chroma strengths are
/// both zero, is treated as one skip: no plane sample changes and only the
/// skip tracking advances.  Otherwise every unit not masked off by the
/// no-skip mask is filtered.
#[verifier::rlimit(100)]
#[verifier::spinoff_prover]
fn cdef_filter_sb64<K: CdefKernel>(
    k: &K,
    py: &mut Plane,
    pu: &mut Plane,
    pv: &mut Plane,
    bufs: &CdefLineBuffers,
    cfg: &CdefCfg,
    bak0: &mut Backup2x8,
    bak1: &mut Backup2x8,
    bit: &mut bool,
    last_skip: &mut bool,
    prev_flag: &mut u8,
    edges: &mut u8,
    cdef_idx: i8,
    noskip: u32,
    sbx: usize,
    by: usize,
    by_start: usize,
    by_end: usize,
    sbrow_start: bool,
    sby: usize,
    tf: bool,
)
    requires
        old(py).wf(),
        old(pu).wf(),
        old(pv).wf(),
        old(bak0).wf(),
        old(bak1).wf(),
        bufs.wf(),
        cfg.wf(),
        -1 <= cdef_idx < 8,
        *old(prev_flag) <= 3,
        sby <= 100000,
        by <= 100000000,
        sbx < cfg.sb128w * 2,
        *old(edges) & CDEF_HAVE_LEFT != 0 ==> sbx >= 1,
        cdef_row_ctx_ok(
            *old(py),
            *old(pu),
            *old(pv),
            *bufs,
            *cfg,
            by as int,
            by_start as int,
            by_end as int,
            sbrow_start,
            sby as int,
            tf,
            *old(edges),
        ),
    ensures
        final (py).wf() && final (pu).wf() && final (pv).wf(),
        final (py).spec_w() == old(py).spec_w() && final (py).spec_h() == old(py).spec_h() && final (py).spec_flipped() == old(py).spec_flipped(),
        final (pu).spec_w() == old(pu).spec_w() && final (pu).spec_h() == old(pu).spec_h() && final (pu).spec_flipped() == old(pu).spec_flipped(),
        final (pv).spec_w() == old(pv).spec_w() && final (pv).spec_h() == old(pv).spec_h() && final (pv).spec_flipped() == old(pv).spec_flipped(),
        final (bak0).wf() && final (bak1).wf(),
        *final (prev_flag) <= 3,
        *final (edges) & CDEF_HAVE_TOP == *old(edges) & CDEF_HAVE_TOP,
        *final (edges) & CDEF_HAVE_BOTTOM == *old(edges) & CDEF_HAVE_BOTTOM,
        (cdef_idx == -1 || (cfg.y_strength[cdef_idx as int] == 0 && cfg.uv_strength[cdef_idx as int]
            == 0)) ==> {
            &&& *final (py) == *old(py)
            &&& *final (pu) == *old(pu)
            &&& *final (pv) == *old(pv)
            &&& *final (bak0) == *old(bak0)
            &&& *final (bak1) == *old(bak1)
            &&& *final (last_skip) == true
            &&& *final (bit) == *old(bit)
            &&& *final (prev_flag) == *old(prev_flag)
            &&& *final (edges) == *old(edges)
        },
        cfg.layout is I400 ==> *final (pu) == *old(pu) && *final (pv) == *old(pv),
        // A luma sample can change only inside this block column's row
        // band, when the block is enabled with a nonzero luma strength and
        // its unit passes the no-skip mask.
        forall|r: int, c: int|
            0 <= r < old(py).spec_h() && 0 <= c < old(py).spec_w() && !(by * 4 <= r < by * 4 + 8
                && sbx * 64 <= c < sbx * 64 + 64 && cdef_idx != -1 && cfg.y_strength[cdef_idx as int]
                != 0 && spec_unit_noskip(noskip, 2 * (c / 8))) ==> #[trigger] final (py).view()[r][c] == old(py).view()[r][c],
        forall|r: int, c: int|
            0 <= r < old(pu).spec_h() && 0 <= c < old(pu).spec_w() && !(spec_uv_row(
                cfg.layout,
                by as int,
            ) <= r < spec_uv_row(cfg.layout, by as int) + spec_uv_h(cfg.layout) && spec_uv_col(
                cfg.layout,
                sbx * 16,
            ) <= c < spec_uv_col(cfg.layout, sbx * 16 + 16) && cdef_idx != -1
                && cfg.uv_strength[cdef_idx as int] != 0 && spec_unit_noskip(
                noskip,
                2 * (c / spec_uv_w(cfg.layout)),
            )) ==> #[trigger] final (pu).view()[r][c] == old(pu).view()[r][c],
        forall|r: int, c: int|
            0 <= r < old(pv).spec_h() && 0 <= c < old(pv).spec_w() && !(spec_uv_row(
                cfg.layout,
                by as int,
            ) <= r < spec_uv_row(cfg.layout, by as int) + spec_uv_h(cfg.layout) && spec_uv_col(
                cfg.layout,
                sbx * 16,
            ) <= c < spec_uv_col(cfg.layout, sbx * 16 + 16) && cdef_idx != -1
                && cfg.uv_strength[cdef_idx as int] != 0 && spec_unit_noskip(
                noskip,
                2 * (c / spec_uv_w(cfg.layout)),
            )) ==> #[trigger] final (pv).view()[r][c] == old(pv).view()[r][c],
{
    if cdef_idx == -1 {
        *last_skip = true;
        return ;
    }
    let idx = cdef_idx as usize;
    let y_lvl: u8 = cfg.y_strength[idx];
    let uv_lvl: u8 = cfg.uv_strength[idx];
    if y_lvl == 0 && uv_lvl == 0 {
        *last_skip = true;
        return ;
    }
    let yb: u8 = if y_lvl != 0 {
        1u8
    } else {
        0u8
    };
    let ub: u8 = if uv_lvl != 0 {
        2u8
    } else {
        0u8
    };
    let flag: u8 = yb | ub;
    proof {
        assert((yb | ub) <= 3 && (yb | ub) & 2 == ub) by (bit_vector)
            requires
                (yb == 0 || yb == 1) && (ub == 0 || ub == 2),
        ;
    }
    let sb_end: usize = if (sbx + 1) * 16 < cfg.bw {
        (sbx + 1) * 16
    } else {
        cfg.bw
    };
    let mut bx: usize = sbx * 16;
    if bx >= sb_end {
        return ;
    }
    while bx < sb_end
        invariant
            py.wf() && pu.wf() && pv.wf(),
            py.spec_w() == old(py).spec_w() && py.spec_h() == old(py).spec_h() && py.spec_flipped()
                == old(py).spec_flipped(),
            pu.spec_w() == old(pu).spec_w() && pu.spec_h() == old(pu).spec_h() && pu.spec_flipped()
                == old(pu).spec_flipped(),
            pv.spec_w() == old(pv).spec_w() && pv.spec_h() == old(pv).spec_h() && pv.spec_flipped()
                == old(pv).spec_flipped(),
            bak0.wf() && bak1.wf(),
            bufs.wf(),
            cfg.wf(),
            *prev_flag <= 3,
            flag <= 3,
            flag & 2 != 0 ==> uv_lvl != 0,
            y_lvl < 64 && uv_lvl < 64,
            uv_lvl != 0 ==> !(cfg.layout is I400),
            sby <= 100000,
            by <= 100000000,
            bx % 2 == 0,
            sb_end <= cfg.bw,
            sb_end <= sbx * 16 + 16,
            sbx * 16 <= bx,
            bx <= sb_end + 1,
            sbx * 16 < sb_end,
            *edges & CDEF_HAVE_LEFT != 0 ==> bx >= 1,
            *edges & CDEF_HAVE_TOP == *old(edges) & CDEF_HAVE_TOP,
            *edges & CDEF_HAVE_BOTTOM == *old(edges) & CDEF_HAVE_BOTTOM,
            cdef_row_ctx_ok(
                *py,
                *pu,
                *pv,
                *bufs,
                *cfg,
                by as int,
                by_start as int,
                by_end as int,
                sbrow_start,
                sby as int,
                tf,
                *old(edges),
            ),
            cfg.layout is I400 ==> *pu == *old(pu) && *pv == *old(pv),
            idx == cdef_idx as int,
            y_lvl == cfg.y_strength[idx as int],
            uv_lvl == cfg.uv_strength[idx as int],
            forall|r: int, c: int|
                0 <= r < old(py).spec_h() && 0 <= c < old(py).spec_w() && !(by * 4 <= r < by * 4
                    + 8 && sbx * 64 <= c < bx * 4 && c < sbx * 64 + 64 && y_lvl != 0
                    && spec_unit_noskip(noskip, 2 * (c / 8))) ==> #[trigger] py.view()[r][c]
                    == old(py).view()[r][c],
            forall|r: int, c: int|
                0 <= r < old(pu).spec_h() && 0 <= c < old(pu).spec_w() && !(spec_uv_row(
                    cfg.layout,
                    by as int,
                ) <= r < spec_uv_row(cfg.layout, by as int) + spec_uv_h(cfg.layout)
                    && spec_uv_col(cfg.layout, sbx * 16) <= c < spec_uv_col(
                    cfg.layout,
                    bx as int,
                ) && c < spec_uv_col(cfg.layout, sbx * 16 + 16) && uv_lvl != 0
                    && spec_unit_noskip(noskip, 2 * (c / spec_uv_w(cfg.layout))))
                    ==> #[trigger] pu.view()[r][c] == old(pu).view()[r][c],
            forall|r: int, c: int|
                0 <= r < old(pv).spec_h() && 0 <= c < old(pv).spec_w() && !(spec_uv_row(
                    cfg.layout,
                    by as int,
                ) <= r < spec_uv_row(cfg.layout, by as int) + spec_uv_h(cfg.layout)
                    && spec_uv_col(cfg.layout, sbx * 16) <= c < spec_uv_col(
                    cfg.layout,
                    bx as int,
                ) && c < spec_uv_col(cfg.layout, sbx * 16 + 16) && uv_lvl != 0
                    && spec_unit_noskip(noskip, 2 * (c / spec_uv_w(cfg.layout))))
                    ==> #[trigger] pv.view()[r][c] == old(pv).view()[r][c],
        decreases sb_end + 2 - bx,
    {
        if bx + 2 >= cfg.bw {
            proof {
                let e = *edges;
                assert(e & !CDEF_HAVE_RIGHT & CDEF_HAVE_RIGHT == 0 && e & !CDEF_HAVE_RIGHT
                    & CDEF_HAVE_LEFT == e & CDEF_HAVE_LEFT && e & !CDEF_HAVE_RIGHT & CDEF_HAVE_TOP
                    == e & CDEF_HAVE_TOP && e & !CDEF_HAVE_RIGHT & CDEF_HAVE_BOTTOM == e
                    & CDEF_HAVE_BOTTOM) by (bit_vector);
            }
            *edges = *edges & !CDEF_HAVE_RIGHT;
        }
        proof {
            let e = *edges;
            assert(e & CDEF_HAVE_RIGHT != 0 ==> bx + 2 < cfg.bw);
        }
        let shift: usize = bx % 32;
        proof {
            vstd::arithmetic::div_mod::lemma_mod_mod(bx as int, 16, 2);
            assert(shift <= 30);
        }
        let bx_mask: u32 = 3u32 << shift;
        if noskip & bx_mask == 0 {
            *last_skip = true;
        } else {
            let do_left: u8 = if *last_skip {
                flag
            } else {
                (*prev_flag ^ flag) & flag
            };
            proof {
                let pf = *prev_flag;
                assert((pf ^ flag) & flag <= 3 && (((pf ^ flag) & flag) & 2 != 0 ==> flag & 2 != 0))
                    by (bit_vector)
                    requires
                        pf <= 3 && flag <= 3,
                ;
            }
            *prev_flag = flag;
            cdef_filter_unit(
                k,
                py,
                pu,
                pv,
                bufs,
                cfg,
                bak0,
                bak1,
                *bit,
                y_lvl,
                uv_lvl,
                do_left,
                by,
                by_start,
                by_end,
                sbrow_start,
                sby,
                bx,
                tf,
                *edges,
            );
            *bit = !*bit;
            *last_skip = false;
            proof {
                lemma_luma_unit_bits(noskip, bx as int);
                lemma_uv_unit_cols(cfg.layout, noskip, sbx as int, bx as int);
            }
        }
        bx = bx + 2;
        proof {
            let e = *edges;
            assert(e | CDEF_HAVE_LEFT != 0 && (e | CDEF_HAVE_LEFT) & CDEF_HAVE_LEFT != 0 && (e
                | CDEF_HAVE_LEFT) & CDEF_HAVE_TOP == e & CDEF_HAVE_TOP && (e | CDEF_HAVE_LEFT)
                & CDEF_HAVE_BOTTOM == e & CDEF_HAVE_BOTTOM) by (bit_vector);
        }
        *edges = *edges | CDEF_HAVE_LEFT;
    }
}


/// The CDEF decisions of one 128-pixel superblock column: a strength index
/// per 64×64 block (`-1` disables CDEF there) and, per block-row pair, the
/// 32-bit no-skip mask marking which 8×8 units carry coefficients.
pub struct CdefMasks {
    pub cdef_idx: [i8; 4],
    pub noskip: [u32; 16],
}

impl CdefMasks {
    pub open spec fn wf(self) -> bool {
        forall|i: int| 0 <= i < 4 ==> -1 <= #[trigger] self.cdef_idx[i] < 8
    }
}

/// The block-row pair whose luma band holds row `r`.
pub open spec fn spec_cdef_band(by_start: int, r: int) -> int {
    by_start + 2 * ((r - by_start * 4) / 8)
}

/// The block-row pair whose chroma band holds row `r`.
pub open spec fn spec_cdef_band_uv(layout: Rav1dPixelLayout, by_start: int, r: int) -> int {
    by_start + 2 * ((r - spec_uv_row(layout, by_start)) / spec_uv_h(layout))
}

/// The strength index the pass reads for block-row pair `by` and 64-pixel
/// block column `sbx`.
pub open spec fn spec_cdef_idx_at(lflvl: Seq<CdefMasks>, by: int, sbx: int) -> int {
    lflvl[sbx / 2].cdef_idx[(by / 16 % 2) * 2 + sbx % 2] as int
}

/// The no-skip word the pass reads for pair `by` and block column `sbx`.
pub open spec fn spec_cdef_noskip_at(lflvl: Seq<CdefMasks>, by: int, sbx: int) -> u32 {
    lflvl[sbx / 2].noskip[(by % 32) / 2]
}

/// May the row pass change luma sample `(r, c)`?  Only a sample of a
/// processed band, inside a block whose strength index is enabled with a
/// nonzero luma strength, in a unit its no-skip mask selects.
pub open spec fn cdef_luma_may_change(
    lflvl: Seq<CdefMasks>,
    ys: Seq<u8>,
    by_start: int,
    by_end: int,
    r: int,
    c: int,
) -> bool {
    let by = spec_cdef_band(by_start, r);
    let sbx = c / 64;
    let idx = spec_cdef_idx_at(lflvl, by, sbx);
    &&& by_start * 4 <= r
    &&& by < by_end
    &&& idx != -1
    &&& ys[idx] != 0
    &&& spec_unit_noskip(spec_cdef_noskip_at(lflvl, by, sbx), 2 * (c / 8))
}

/// The chroma analogue of [`cdef_luma_may_change`], in chroma coordinates.
pub open spec fn cdef_chroma_may_change(
    lflvl: Seq<CdefMasks>,
    uvs: Seq<u8>,
    layout: Rav1dPixelLayout,
    by_start: int,
    by_end: int,
    r: int,
    c: int,
) -> bool {
    let by = spec_cdef_band_uv(layout, by_start, r);
    let sbx = c / (8 * spec_uv_w(layout));
    let idx = spec_cdef_idx_at(lflvl, by, sbx);
    &&& spec_uv_row(layout, by_start) <= r
    &&& by < by_end
    &&& idx != -1
    &&& uvs[idx] != 0
    &&& spec_unit_noskip(spec_cdef_noskip_at(lflvl, by, sbx), 2 * (c / spec_uv_w(layout)))
}

/// A luma row belongs to exactly one band: its pair is even steps from
/// the start and its band rows bracket it.
proof fn lemma_band_of(by_start: int, r: int)
    requires
        by_start * 4 <= r,
    ensures
        spec_cdef_band(by_start, r) >= by_start,
        (spec_cdef_band(by_start, r) - by_start) % 2 == 0,
        spec_cdef_band(by_start, r) * 4 <= r < spec_cdef_band(by_start, r) * 4 + 8,
{
    let q = (r - by_start * 4) / 8;
    vstd::arithmetic::div_mod::lemma_fundamental_div_mod(r - by_start * 4, 8);
    assert(q >= 0) by {
        vstd::arithmetic::div_mod::lemma_div_is_ordered(0, r - by_start * 4, 8);
    }
    assert((by_start + 2 * q) * 4 == by_start * 4 + 8 * q) by (nonlinear_arith);
    assert((by_start + 2 * q - by_start) % 2 == 0) by {
        assert((2 * q) % 2 == 0) by (nonlinear_arith);
    }
}

/// The chroma counterpart of [`lemma_band_of`].
proof fn lemma_band_uv_of(layout: Rav1dPixelLayout, by_start: int, r: int)
    requires
        spec_uv_row(layout, by_start) <= r,
    ensures
        spec_cdef_band_uv(layout, by_start, r) >= by_start,
        (spec_cdef_band_uv(layout, by_start, r) - by_start) % 2 == 0,
        spec_uv_row(layout, spec_cdef_band_uv(layout, by_start, r)) <= r < spec_uv_row(
            layout,
            spec_cdef_band_uv(layout, by_start, r),
        ) + spec_uv_h(layout),
{
    let uvh = spec_uv_h(layout);
    let base = spec_uv_row(layout, by_start);
    let q = (r - base) / uvh;
    vstd::arithmetic::div_mod::lemma_fundamental_div_mod(r - base, uvh);
    assert(q >= 0) by {
        vstd::arithmetic::div_mod::lemma_div_is_ordered(0, r - base, uvh);
    }
    assert(spec_uv_row(layout, by_start + 2 * q) == base + uvh * q) by (nonlinear_arith)
        requires
            uvh == spec_uv_h(layout),
            base == spec_uv_row(layout, by_start),
            (layout.spec_ss_ver() == 1 ==> uvh == 4 && base == by_start * 2 && spec_uv_row(
                layout,
                by_start + 2 * q,
            ) == (by_start + 2 * q) * 2),
            (layout.spec_ss_ver() != 1 ==> uvh == 8 && base == by_start * 4 && spec_uv_row(
                layout,
                by_start + 2 * q,
            ) == (by_start + 2 * q) * 4),
    ;
    assert((by_start + 2 * q - by_start) % 2 == 0) by {
        assert((2 * q) % 2 == 0) by (nonlinear_arith);
    }
}

/// A luma column inside one 64-pixel block column divides back to it.
proof fn lemma_col_block(sbx: int, c: int)
    requires
        0 <= sbx,
        sbx * 64 <= c < sbx * 64 + 64,
    ensures
        c / 64 == sbx,
{
    lemma_div_multiples_vanish_fancy(sbx, c - 64 * sbx, 64);
}

/// The chroma counterpart of [`lemma_col_block`].
proof fn lemma_col_block_uv(layout: Rav1dPixelLayout, sbx: int, c: int)
    requires
        0 <= sbx,
        spec_uv_col(layout, sbx * 16) <= c < spec_uv_col(layout, sbx * 16 + 16),
    ensures
        c / (8 * spec_uv_w(layout)) == sbx,
{
    let uvw = spec_uv_w(layout);
    assert(spec_uv_col(layout, sbx * 16) == 8 * uvw * sbx && spec_uv_col(layout, sbx * 16 + 16)
        == 8 * uvw * sbx + 8 * uvw) by (nonlinear_arith)
        requires
            uvw == spec_uv_w(layout),
            (layout.spec_ss_hor() == 1 ==> uvw == 4 && spec_uv_col(layout, sbx * 16) == (sbx * 16)
                * 2 && spec_uv_col(layout, sbx * 16 + 16) == (sbx * 16 + 16) * 2),
            (layout.spec_ss_hor() != 1 ==> uvw == 8 && spec_uv_col(layout, sbx * 16) == (sbx * 16)
                * 4 && spec_uv_col(layout, sbx * 16 + 16) == (sbx * 16 + 16) * 4),
    ;
    lemma_div_multiples_vanish_fancy(sbx, c - 8 * uvw * sbx, 8 * uvw);
}

/// Chroma band rows of distinct pairs never overlap: two steps of the
/// pair index advance the chroma row by a whole band height.
proof fn lemma_uv_row_step(layout: Rav1dPixelLayout, b1: int, b2: int)
    requires
        b1 + 2 <= b2,
    ensures
        spec_uv_row(layout, b1) + spec_uv_h(layout) <= spec_uv_row(layout, b2),
{
    let uvh = spec_uv_h(layout);
    assert(spec_uv_row(layout, b1) + uvh <= spec_uv_row(layout, b2)) by (nonlinear_arith)
        requires
            b1 + 2 <= b2,
            uvh == spec_uv_h(layout),
            (layout.spec_ss_ver() == 1 ==> uvh == 4 && spec_uv_row(layout, b1) == b1 * 2
                && spec_uv_row(layout, b2) == b2 * 2),
            (layout.spec_ss_ver() != 1 ==> uvh == 8 && spec_uv_row(layout, b1) == b1 * 4
                && spec_uv_row(layout, b2) == b2 * 4),
    ;
}

/// The two context rows at `dst_row` of a backup slot equal rows
/// `src_row`, `src_row + 1` of a source plane view.
pub open spec fn cdef_backup_rows_ok(
    slot: Plane,
    src: Seq<Seq<u16>>,
    dst_row: int,
    src_row: int,
    w: int,
) -> bool {
    forall|i: int, c: int|
        0 <= i < 2 && 0 <= c < w ==> #[trigger] slot.view()[dst_row + i][c] == src[src_row + i][c]
}

/// One block column processed: the luma prefix invariant of the row pass
/// extends by that column.  `old_v` is the plane at the start of the pass,
/// `pre_v` just before this column, `new_v` just after.
#[verifier::rlimit(100)]
#[verifier::spinoff_prover]
proof fn lemma_brow_step_luma(
    old_v: Seq<Seq<u16>>,
    pre_v: Seq<Seq<u16>>,
    new_v: Seq<Seq<u16>>,
    lflvl: Seq<CdefMasks>,
    ys: Seq<u8>,
    by_start: int,
    by: int,
    sbx: int,
    cdef_idx: int,
    noskip: u32,
    h: int,
    w: int,
)
    requires
        by_start <= by,
        (by - by_start) % 2 == 0,
        0 <= sbx,
        cdef_idx == spec_cdef_idx_at(lflvl, by, sbx),
        noskip == spec_cdef_noskip_at(lflvl, by, sbx),
        forall|r: int, c: int|
            0 <= r < h && 0 <= c < w && !(cdef_luma_may_change(lflvl, ys, by_start, by + 2, r, c)
                && (r < by * 4 || c < sbx * 64)) ==> #[trigger] pre_v[r][c] == old_v[r][c],
        forall|r: int, c: int|
            0 <= r < h && 0 <= c < w && !(by * 4 <= r < by * 4 + 8 && sbx * 64 <= c < sbx * 64 + 64
                && cdef_idx != -1 && ys[cdef_idx] != 0 && spec_unit_noskip(noskip, 2 * (c / 8)))
                ==> #[trigger] new_v[r][c] == pre_v[r][c],
    ensures
        forall|r: int, c: int|
            0 <= r < h && 0 <= c < w && !(cdef_luma_may_change(lflvl, ys, by_start, by + 2, r, c)
                && (r < by * 4 || c < (sbx + 1) * 64)) ==> #[trigger] new_v[r][c] == old_v[r][c],
{
    assert forall|r: int, c: int|
        0 <= r < h && 0 <= c < w && !(cdef_luma_may_change(lflvl, ys, by_start, by + 2, r, c) && (r
            < by * 4 || c < (sbx + 1) * 64)) implies #[trigger] new_v[r][c] == old_v[r][c] by {
        if by * 4 <= r < by * 4 + 8 {
            lemma_band_of(by_start, r);
            assert(spec_cdef_band(by_start, r) == by);
            if sbx * 64 <= c < sbx * 64 + 64 {
                lemma_col_block(sbx, c);
                assert(pre_v[r][c] == old_v[r][c]);
                assert(new_v[r][c] == pre_v[r][c]);
            } else {
                assert(new_v[r][c] == pre_v[r][c]);
                assert(pre_v[r][c] == old_v[r][c]);
            }
        } else {
            assert(new_v[r][c] == pre_v[r][c]);
            if by_start * 4 <= r {
                lemma_band_of(by_start, r);
            }
            assert(pre_v[r][c] == old_v[r][c]);
        }
    }
}

/// The chroma counterpart of [`lemma_brow_step_luma`].
#[verifier::rlimit(100)]
#[verifier::spinoff_prover]
proof fn lemma_brow_step_chroma(
    old_v: Seq<Seq<u16>>,
    pre_v: Seq<Seq<u16>>,
    new_v: Seq<Seq<u16>>,
    lflvl: Seq<CdefMasks>,
    uvs: Seq<u8>,
    layout: Rav1dPixelLayout,
    by_start: int,
    by: int,
    sbx: int,
    cdef_idx: int,
    noskip: u32,
    h: int,
    w: int,
)
    requires
        by_start <= by,
        (by - by_start) % 2 == 0,
        0 <= sbx,
        cdef_idx == spec_cdef_idx_at(lflvl, by, sbx),
        noskip == spec_cdef_noskip_at(lflvl, by, sbx),
        forall|r: int, c: int|
            0 <= r < h && 0 <= c < w && !(cdef_chroma_may_change(
                lflvl,
                uvs,
                layout,
                by_start,
                by + 2,
                r,
                c,
            ) && (r < spec_uv_row(layout, by) || c < spec_uv_col(layout, sbx * 16)))
                ==> #[trigger] pre_v[r][c] == old_v[r][c],
        forall|r: int, c: int|
            0 <= r < h && 0 <= c < w && !(spec_uv_row(layout, by) <= r < spec_uv_row(layout, by)
                + spec_uv_h(layout) && spec_uv_col(layout, sbx * 16) <= c < spec_uv_col(
                layout,
                sbx * 16 + 16,
            ) && cdef_idx != -1 && uvs[cdef_idx] != 0 && spec_unit_noskip(
                noskip,
                2 * (c / spec_uv_w(layout)),
            )) ==> #[trigger] new_v[r][c] == pre_v[r][c],
    ensures
        forall|r: int, c: int|
            0 <= r < h && 0 <= c < w && !(cdef_chroma_may_change(
                lflvl,
                uvs,
                layout,
                by_start,
                by + 2,
                r,
                c,
            ) && (r < spec_uv_row(layout, by) || c < spec_uv_col(layout, (sbx + 1) * 16)))
                ==> #[trigger] new_v[r][c] == old_v[r][c],
{
    let uvh = spec_uv_h(layout);
    let uvw = spec_uv_w(layout);
    assert forall|b1: int, b2: int|
        b1 + 2 <= b2 implies #[trigger] spec_uv_row(layout, b1) + uvh <= #[trigger] spec_uv_row(
        layout,
        b2,
    ) by {
        lemma_uv_row_step(layout, b1, b2);
    }
    assert(spec_uv_col(layout, (sbx + 1) * 16) == spec_uv_col(layout, sbx * 16 + 16));
    assert forall|r: int, c: int|
        0 <= r < h && 0 <= c < w && !(cdef_chroma_may_change(
            lflvl,
            uvs,
            layout,
            by_start,
            by + 2,
            r,
            c,
        ) && (r < spec_uv_row(layout, by) || c < spec_uv_col(layout, (sbx + 1) * 16)))
        implies #[trigger] new_v[r][c] == old_v[r][c] by {
        if spec_uv_row(layout, by) <= r < spec_uv_row(layout, by) + uvh {
            lemma_band_uv_of(layout, by_start, r);
            let band = spec_cdef_band_uv(layout, by_start, r);
            if band < by {
                assert(spec_uv_row(layout, band) + uvh <= spec_uv_row(layout, by));
                assert(false);
            }
            if by < band {
                assert(spec_uv_row(layout, by) + uvh <= spec_uv_row(layout, band));
                assert(false);
            }
            assert(band == by);
            if spec_uv_col(layout, sbx * 16) <= c < spec_uv_col(layout, sbx * 16 + 16) {
                lemma_col_block_uv(layout, sbx, c);
                assert(pre_v[r][c] == old_v[r][c]);
                assert(new_v[r][c] == pre_v[r][c]);
            } else {
                assert(new_v[r][c] == pre_v[r][c]);
                assert(pre_v[r][c] == old_v[r][c]);
            }
        } else {
            assert(new_v[r][c] == pre_v[r][c]);
            if spec_uv_row(layout, by_start) <= r {
                lemma_band_uv_of(layout, by_start, r);
                let band = spec_cdef_band_uv(layout, by_start, r);
                if r >= spec_uv_row(layout, by) + uvh && band < by + 2 {
                    if band + 2 <= by {
                        assert(spec_uv_row(layout, band) + uvh <= spec_uv_row(layout, by));
                    }
                    assert(band == by || spec_uv_row(layout, band) + uvh <= spec_uv_row(
                        layout,
                        by,
                    ));
                    assert(false);
                }
            }
            assert(pre_v[r][c] == old_v[r][c]);
        }
    }
}

/// The plane and buffer geometry a whole superblock-row CDEF pass relies
/// on: padded frame planes and line buffers tall enough for every context
/// row the pass may fetch.
pub open spec fn cdef_brow_ok(
    py: Plane,
    pu: Plane,
    pv: Plane,
    bufs: CdefLineBuffers,
    cfg: CdefCfg,
    by_start: int,
    by_end: int,
    sbrow_start: bool,
    sby: int,
) -> bool {
    let sbsh = if cfg.sb128 {
        8int
    } else {
        4int
    };
    &&& py.wf() && pu.wf() && pv.wf() && bufs.wf()
    &&& py.spec_w() >= cfg.bw * 4 + 4
    &&& py.spec_h() >= by_end * 4 + 8
    &&& pu.spec_w() == pv.spec_w() && pu.spec_h() == pv.spec_h()
    &&& pu.spec_w() >= spec_uv_col(cfg.layout, cfg.bw as int) + spec_uv_w(cfg.layout)
    &&& pu.spec_h() >= spec_uv_row(cfg.layout, by_end) + spec_uv_h(cfg.layout) + 2
    &&& bufs.line_y_a.spec_w() == py.spec_w() && bufs.line_y_b.spec_w() == py.spec_w()
    &&& bufs.lpf_y.spec_w() == py.spec_w() && bufs.lr_y.spec_w() == py.spec_w()
    &&& bufs.line_u_a.spec_w() == pu.spec_w() && bufs.line_u_b.spec_w() == pu.spec_w()
    &&& bufs.lpf_u.spec_w() == pu.spec_w() && bufs.lr_u.spec_w() == pu.spec_w()
    &&& bufs.line_v_a.spec_w() == pv.spec_w() && bufs.line_v_b.spec_w() == pv.spec_w()
    &&& bufs.lpf_v.spec_w() == pv.spec_w() && bufs.lr_v.spec_w() == pv.spec_w()
    &&& (if cfg.have_tt {
        sby * 4
    } else {
        0int
    }) + 2 <= bufs.line_y_a.spec_h()
    &&& (if cfg.have_tt {
        sby * 4
    } else {
        0int
    }) + 2 <= bufs.line_y_b.spec_h()
    &&& (if cfg.have_tt {
        sby * 8
    } else {
        0int
    }) + 2 <= bufs.line_u_a.spec_h()
    &&& (if cfg.have_tt {
        sby * 8
    } else {
        0int
    }) + 2 <= bufs.line_u_b.spec_h()
    &&& (if cfg.have_tt {
        sby * 8
    } else {
        0int
    }) + 2 <= bufs.line_v_a.spec_h()
    &&& (if cfg.have_tt {
        sby * 8
    } else {
        0int
    }) + 2 <= bufs.line_v_b.spec_h()
    &&& ((cfg.have_tt && sbrow_start && by_start > 0 && cfg.resize) ==> sby >= 1 && (sby - 1) * 4
        + 2 <= bufs.lpf_y.spec_h() && (sby - 1) * 4 + 2 <= bufs.lpf_u.spec_h() && (sby - 1) * 4 + 2
        <= bufs.lpf_v.spec_h())
    &&& ((cfg.have_tt && sbrow_start && by_start > 0 && !cfg.resize) ==> sby * sbsh >= 4 && sby
        * sbsh - 2 <= bufs.lr_y.spec_h() && sby * sbsh - 2 <= bufs.lr_u.spec_h() && sby * sbsh - 2
        <= bufs.lr_v.spec_h())
    &&& ((cfg.have_tt && !sbrow_start && cfg.resize) ==> sby * 4 + 4 <= bufs.lpf_y.spec_h() && sby
        * 4 + 4 <= bufs.lpf_u.spec_h() && sby * 4 + 4 <= bufs.lpf_v.spec_h())
    &&& ((cfg.have_tt && !sbrow_start && !cfg.resize) ==> sby * sbsh + (if cfg.sb128 {
        4int
    } else {
        0int
    }) + 4 <= bufs.lr_y.spec_h() && sby * sbsh + (if cfg.sb128 {
        4int
    } else {
        0int
    }) + 4 <= bufs.lr_v.spec_h() && sby * sbsh + (if cfg.sb128 {
        4int
    } else {
        0int
    }) + 4 <= bufs.lr_u.spec_h())
}

/// Run CDEF over the block-row range `by_start .. by_end` of one
/// superblock row.
///
/// Per row pair, the bottom two rows of the band are first snapshotted
/// into the toggled top-line backup slot (so the next row's pass can still
/// read them), the edge flags narrow near the frame boundary, and every
/// 64-pixel column is processed in turn.  The backup slot toggle flips
/// once per row pair.  Monochrome frames never touch the chroma planes.
#[verifier::rlimit(100)]
#[verifier::spinoff_prover]
pub fn rav1d_cdef_brow<K: CdefKernel>(
    k: &K,
    py: &mut Plane,
    pu: &mut Plane,
    pv: &mut Plane,
    bufs: &mut CdefLineBuffers,
    cfg: &CdefCfg,
    lflvl: &Vec<CdefMasks>,
    toggle: &mut bool,
    by_start: usize,
    by_end: usize,
    sbrow_start: bool,
    sby: usize,
)
    requires
        cfg.wf(),
        lflvl.len() >= cfg.sb128w,
        by_start % 2 == 0,
        by_start <= by_end <= 100000000,
        by_end <= cfg.bh,
        sby <= 100000,
        forall|i: int| 0 <= i < lflvl.len() ==> (#[trigger] lflvl[i]).wf(),
        cdef_brow_ok(
            *old(py),
            *old(pu),
            *old(pv),
            *old(bufs),
            *cfg,
            by_start as int,
            by_end as int,
            sbrow_start,
            sby as int,
        ),
    ensures
        final (py).wf() && final (pu).wf() && final (pv).wf(),
        final (py).spec_w() == old(py).spec_w() && final (py).spec_h() == old(py).spec_h() && final (py).spec_flipped() == old(py).spec_flipped(),
        final (pu).spec_w() == old(pu).spec_w() && final (pu).spec_h() == old(pu).spec_h() && final (pu).spec_flipped() == old(pu).spec_flipped(),
        final (pv).spec_w() == old(pv).spec_w() && final (pv).spec_h() == old(pv).spec_h() && final (pv).spec_flipped() == old(pv).spec_flipped(),
        final (bufs).wf(),
        cfg.layout is I400 ==> *final (pu) == *old(pu) && *final (pv) == *old(pv),
        *final (toggle) == (if ((by_end - by_start + 1) / 2) % 2 == 1 {
            !*old(toggle)
        } else {
            *old(toggle)
        }),
        // Confinement and skip guarantees of the whole pass: a luma sample
        // outside the processed bands, in a block whose index is disabled
        // or whose luma strength is zero, or in a unit its no-skip mask
        // bypasses, is untouched; likewise for each chroma plane with its
        // chroma strength.
        forall|r: int, c: int|
            0 <= r < old(py).spec_h() && 0 <= c < old(py).spec_w() && !cdef_luma_may_change(
                lflvl@,
                cfg.y_strength@,
                by_start as int,
                by_end as int,
                r,
                c,
            ) ==> #[trigger] final (py).view()[r][c] == old(py).view()[r][c],
        forall|r: int, c: int|
            0 <= r < old(pu).spec_h() && 0 <= c < old(pu).spec_w() && !cdef_chroma_may_change(
                lflvl@,
                cfg.uv_strength@,
                cfg.layout,
                by_start as int,
                by_end as int,
                r,
                c,
            ) ==> #[trigger] final (pu).view()[r][c] == old(pu).view()[r][c],
        forall|r: int, c: int|
            0 <= r < old(pv).spec_h() && 0 <= c < old(pv).spec_w() && !cdef_chroma_may_change(
                lflvl@,
                cfg.uv_strength@,
                cfg.layout,
                by_start as int,
                by_end as int,
                r,
                c,
            ) ==> #[trigger] final (pv).view()[r][c] == old(pv).view()[r][c],
        // The toggled top-line slot written for the last processed band
        // holds that band's unfiltered bottom rows, whenever that band's
        // backup condition held.
        by_start < by_end ==> {
            let by_last = by_start + 2 * ((by_end - by_start + 1) / 2 - 1);
            (by_last + 2 < cfg.bh && (!cfg.have_tt || sbrow_start || by_last + 2 < by_end)) ==> {
                let slot_y = if !*final (toggle) {
                    final (bufs).line_y_a
                } else {
                    final (bufs).line_y_b
                };
                let slot_u = if !*final (toggle) {
                    final (bufs).line_u_a
                } else {
                    final (bufs).line_u_b
                };
                let slot_v = if !*final (toggle) {
                    final (bufs).line_v_a
                } else {
                    final (bufs).line_v_b
                };
                let y_dst = if cfg.have_tt {
                    sby * 4
                } else {
                    0int
                };
                let uv_dst = if cfg.have_tt {
                    sby * 8
                } else {
                    0int
                };
                let uv_off = if cfg.layout is I420 {
                    2int
                } else {
                    6int
                };
                &&& cdef_backup_rows_ok(
                    slot_y,
                    old(py).view(),
                    y_dst,
                    by_last * 4 + 6,
                    old(py).spec_w() as int,
                )
                &&& (!(cfg.layout is I400) ==> cdef_backup_rows_ok(
                    slot_u,
                    old(pu).view(),
                    uv_dst,
                    spec_uv_row(cfg.layout, by_last) + uv_off,
                    old(pu).spec_w() as int,
                ))
                &&& (!(cfg.layout is I400) ==> cdef_backup_rows_ok(
                    slot_v,
                    old(pv).view(),
                    uv_dst,
                    spec_uv_row(cfg.layout, by_last) + uv_off,
                    old(pv).spec_w() as int,
                ))
            }
        },
{
    let mut edges: u8 = CDEF_HAVE_BOTTOM | (if by_start > 0 {
        CDEF_HAVE_TOP
    } else {
        0
    });
    proof {
        assert(((CDEF_HAVE_BOTTOM | CDEF_HAVE_TOP) & CDEF_HAVE_TOP != 0) && ((CDEF_HAVE_BOTTOM
            | 0) & CDEF_HAVE_TOP == 0) && ((CDEF_HAVE_BOTTOM | CDEF_HAVE_TOP) & CDEF_HAVE_BOTTOM
            != 0) && ((CDEF_HAVE_BOTTOM | 0) & CDEF_HAVE_BOTTOM != 0)) by (bit_vector);
    }
    let mut bak0 = Backup2x8::new();
    let mut bak1 = Backup2x8::new();
    let mut bit: bool = false;
    let sb64w = cfg.sb128w * 2;
    let mut by: usize = by_start;
    while by < by_end
        invariant
            cfg.wf(),
            lflvl.len() >= cfg.sb128w,
            by_start % 2 == 0,
            by % 2 == by_start % 2,
            (by - by_start) % 2 == 0,
            by_start <= by <= by_end + 1,
            by_end <= 100000000,
            by_end <= cfg.bh,
            sby <= 100000,
            sb64w == cfg.sb128w * 2,
            forall|i: int| 0 <= i < lflvl.len() ==> (#[trigger] lflvl[i]).wf(),
            py.wf() && pu.wf() && pv.wf(),
            py.spec_w() == old(py).spec_w() && py.spec_h() == old(py).spec_h() && py.spec_flipped()
                == old(py).spec_flipped(),
            pu.spec_w() == old(pu).spec_w() && pu.spec_h() == old(pu).spec_h() && pu.spec_flipped()
                == old(pu).spec_flipped(),
            pv.spec_w() == old(pv).spec_w() && pv.spec_h() == old(pv).spec_h() && pv.spec_flipped()
                == old(pv).spec_flipped(),
            bufs.wf(),
            bufs.line_y_a.spec_w() == old(bufs).line_y_a.spec_w() && bufs.line_y_a.spec_h() == old(
                bufs,
            ).line_y_a.spec_h(),
            bufs.line_y_b.spec_w() == old(bufs).line_y_b.spec_w() && bufs.line_y_b.spec_h() == old(
                bufs,
            ).line_y_b.spec_h(),
            bufs.line_u_a.spec_w() == old(bufs).line_u_a.spec_w() && bufs.line_u_a.spec_h() == old(
                bufs,
            ).line_u_a.spec_h(),
            bufs.line_u_b.spec_w() == old(bufs).line_u_b.spec_w() && bufs.line_u_b.spec_h() == old(
                bufs,
            ).line_u_b.spec_h(),
            bufs.line_v_a.spec_w() == old(bufs).line_v_a.spec_w() && bufs.line_v_a.spec_h() == old(
                bufs,
            ).line_v_a.spec_h(),
            bufs.line_v_b.spec_w() == old(bufs).line_v_b.spec_w() && bufs.line_v_b.spec_h() == old(
                bufs,
            ).line_v_b.spec_h(),
            bufs.lpf_y == old(bufs).lpf_y && bufs.lr_y == old(bufs).lr_y,
            bufs.lpf_u == old(bufs).lpf_u && bufs.lr_u == old(bufs).lr_u,
            bufs.lpf_v == old(bufs).lpf_v && bufs.lr_v == old(bufs).lr_v,
            bak0.wf() && bak1.wf(),
            cdef_brow_ok(
                *py,
                *pu,
                *pv,
                *bufs,
                *cfg,
                by_start as int,
                by_end as int,
                sbrow_start,
                sby as int,
            ),
            cfg.layout is I400 ==> *pu == *old(pu) && *pv == *old(pv),
            (by == by_start && edges & CDEF_HAVE_TOP != 0) ==> by_start > 0,
            by == by_start ==> edges & CDEF_HAVE_BOTTOM != 0,
            by > by_start ==> (edges & CDEF_HAVE_BOTTOM != 0 <==> by < cfg.bh),
            by > by_start ==> {
                let prev = by - 2;
                (prev + 2 < cfg.bh && (!cfg.have_tt || sbrow_start || prev + 2 < by_end)) ==> {
                    let slot_y = if !*toggle {
                        bufs.line_y_a
                    } else {
                        bufs.line_y_b
                    };
                    let slot_u = if !*toggle {
                        bufs.line_u_a
                    } else {
                        bufs.line_u_b
                    };
                    let slot_v = if !*toggle {
                        bufs.line_v_a
                    } else {
                        bufs.line_v_b
                    };
                    let y_dst = if cfg.have_tt {
                        sby * 4
                    } else {
                        0int
                    };
                    let uv_dst = if cfg.have_tt {
                        sby * 8
                    } else {
                        0int
                    };
                    let uv_off = if cfg.layout is I420 {
                        2int
                    } else {
                        6int
                    };
                    &&& cdef_backup_rows_ok(
                        slot_y,
                        old(py).view(),
                        y_dst,
                        prev * 4 + 6,
                        old(py).spec_w() as int,
                    )
                    &&& (!(cfg.layout is I400) ==> cdef_backup_rows_ok(
                        slot_u,
                        old(pu).view(),
                        uv_dst,
                        spec_uv_row(cfg.layout, prev) + uv_off,
                        old(pu).spec_w() as int,
                    ))
                    &&& (!(cfg.layout is I400) ==> cdef_backup_rows_ok(
                        slot_v,
                        old(pv).view(),
                        uv_dst,
                        spec_uv_row(cfg.layout, prev) + uv_off,
                        old(pv).spec_w() as int,
                    ))
                }
            },
            *toggle == (if (((by - by_start) / 2) % 2) == 1 {
                !*old(toggle)
            } else {
                *old(toggle)
            }),
            forall|r: int, c: int|
                0 <= r < old(py).spec_h() && 0 <= c < old(py).spec_w() && !cdef_luma_may_change(
                    lflvl@,
                    cfg.y_strength@,
                    by_start as int,
                    by as int,
                    r,
                    c,
                ) ==> #[trigger] py.view()[r][c] == old(py).view()[r][c],
            forall|r: int, c: int|
                0 <= r < old(pu).spec_h() && 0 <= c < old(pu).spec_w() && !cdef_chroma_may_change(
                    lflvl@,
                    cfg.uv_strength@,
                    cfg.layout,
                    by_start as int,
                    by as int,
                    r,
                    c,
                ) ==> #[trigger] pu.view()[r][c] == old(pu).view()[r][c],
            forall|r: int, c: int|
                0 <= r < old(pv).spec_h() && 0 <= c < old(pv).spec_w() && !cdef_chroma_may_change(
                    lflvl@,
                    cfg.uv_strength@,
                    cfg.layout,
                    by_start as int,
                    by as int,
                    r,
                    c,
                ) ==> #[trigger] pv.view()[r][c] == old(pv).view()[r][c],
        decreases by_end + 2 - by,
    {
        let tf: bool = *toggle;
        if by + 2 >= cfg.bh {
            proof {
                let e = edges;
                assert(e & !CDEF_HAVE_BOTTOM & CDEF_HAVE_BOTTOM == 0 && e & !CDEF_HAVE_BOTTOM
                    & CDEF_HAVE_TOP == e & CDEF_HAVE_TOP) by (bit_vector);
            }
            edges = edges & !CDEF_HAVE_BOTTOM;
        }
        proof {
            assert(edges & CDEF_HAVE_BOTTOM != 0 <==> by + 2 < cfg.bh);
        }
        let ghost bottom_bit = edges & CDEF_HAVE_BOTTOM;
        let ghost py_at_backup = py.view();
        let ghost pu_at_backup = pu.view();
        let ghost pv_at_backup = pv.view();
        let mut took_backup: bool = false;
        if (!cfg.have_tt || sbrow_start || by + 2 < by_end) && edges & CDEF_HAVE_BOTTOM != 0 {
            took_backup = true;
            let y_dst_row: usize = if cfg.have_tt {
                sby * 4
            } else {
                0
            };
            let uv_dst_row: usize = if cfg.have_tt {
                sby * 8
            } else {
                0
            };
            let y_band = by * 4;
            let ss_ver = cfg.layout.ss_ver();
            let uv_band: usize = if ss_ver == 1 {
                by * 2
            } else {
                by * 4
            };
            if tf {
                backup2lines(
                    &mut bufs.line_y_a,
                    &mut bufs.line_u_a,
                    &mut bufs.line_v_a,
                    py,
                    pu,
                    pv,
                    y_band,
                    uv_band,
                    y_dst_row,
                    uv_dst_row,
                    cfg.layout,
                );
            } else {
                backup2lines(
                    &mut bufs.line_y_b,
                    &mut bufs.line_u_b,
                    &mut bufs.line_v_b,
                    py,
                    pu,
                    pv,
                    y_band,
                    uv_band,
                    y_dst_row,
                    uv_dst_row,
                    cfg.layout,
                );
            }
        }
        proof {
            let e = edges;
            assert((e & !CDEF_HAVE_LEFT | CDEF_HAVE_RIGHT) & CDEF_HAVE_LEFT == 0 && (e
                & !CDEF_HAVE_LEFT | CDEF_HAVE_RIGHT) & CDEF_HAVE_TOP == e & CDEF_HAVE_TOP && (e
                & !CDEF_HAVE_LEFT | CDEF_HAVE_RIGHT) & CDEF_HAVE_BOTTOM == e & CDEF_HAVE_BOTTOM)
                by (bit_vector);
        }
        edges = edges & !CDEF_HAVE_LEFT;
        edges = edges | CDEF_HAVE_RIGHT;
        let mut prev_flag: u8 = 0;
        let mut last_skip: bool = true;
        proof {
            assert forall|r: int, c: int|
                0 <= r < old(py).spec_h() && 0 <= c < old(py).spec_w() && !(cdef_luma_may_change(
                    lflvl@,
                    cfg.y_strength@,
                    by_start as int,
                    by + 2,
                    r,
                    c,
                ) && (r < by * 4 || c < 0)) implies #[trigger] py.view()[r][c] == old(
                py,
            ).view()[r][c] by {
                if cdef_luma_may_change(lflvl@, cfg.y_strength@, by_start as int, by as int, r, c) {
                    lemma_band_of(by_start as int, r);
                }
            }
            assert forall|r: int, c: int|
                0 <= r < old(pu).spec_h() && 0 <= c < old(pu).spec_w() && !(cdef_chroma_may_change(
                    lflvl@,
                    cfg.uv_strength@,
                    cfg.layout,
                    by_start as int,
                    by + 2,
                    r,
                    c,
                ) && (r < spec_uv_row(cfg.layout, by as int) || c < 0)) implies #[trigger] pu.view()[r][c] == old(pu).view()[r][c] by {
                if cdef_chroma_may_change(
                    lflvl@,
                    cfg.uv_strength@,
                    cfg.layout,
                    by_start as int,
                    by as int,
                    r,
                    c,
                ) {
                    lemma_band_uv_of(cfg.layout, by_start as int, r);
                    lemma_uv_row_step(
                        cfg.layout,
                        spec_cdef_band_uv(cfg.layout, by_start as int, r),
                        by as int,
                    );
                }
            }
            assert forall|r: int, c: int|
                0 <= r < old(pv).spec_h() && 0 <= c < old(pv).spec_w() && !(cdef_chroma_may_change(
                    lflvl@,
                    cfg.uv_strength@,
                    cfg.layout,
                    by_start as int,
                    by + 2,
                    r,
                    c,
                ) && (r < spec_uv_row(cfg.layout, by as int) || c < 0)) implies #[trigger] pv.view()[r][c] == old(pv).view()[r][c] by {
                if cdef_chroma_may_change(
                    lflvl@,
                    cfg.uv_strength@,
                    cfg.layout,
                    by_start as int,
                    by as int,
                    r,
                    c,
                ) {
                    lemma_band_uv_of(cfg.layout, by_start as int, r);
                    lemma_uv_row_step(
                        cfg.layout,
                        spec_cdef_band_uv(cfg.layout, by_start as int, r),
                        by as int,
                    );
                }
            }
        }
        let mut sbx: usize = 0;
        while sbx < sb64w
            invariant
                cfg.wf(),
                lflvl.len() >= cfg.sb128w,
                sb64w == cfg.sb128w * 2,
                forall|i: int| 0 <= i < lflvl.len() ==> (#[trigger] lflvl[i]).wf(),
                by % 2 == 0,
                by <= 100000000,
                sby <= 100000,
                sbx <= sb64w,
                prev_flag <= 3,
                py.wf() && pu.wf() && pv.wf(),
                py.spec_w() == old(py).spec_w() && py.spec_h() == old(py).spec_h()
                    && py.spec_flipped() == old(py).spec_flipped(),
                pu.spec_w() == old(pu).spec_w() && pu.spec_h() == old(pu).spec_h()
                    && pu.spec_flipped() == old(pu).spec_flipped(),
                pv.spec_w() == old(pv).spec_w() && pv.spec_h() == old(pv).spec_h()
                    && pv.spec_flipped() == old(pv).spec_flipped(),
                bak0.wf() && bak1.wf(),
                bufs.wf(),
                edges & CDEF_HAVE_LEFT != 0 ==> sbx >= 1,
                by * 4 + 8 <= py.spec_h(),
                spec_uv_row(cfg.layout, by as int) + spec_uv_h(cfg.layout) <= pu.spec_h(),
                edges & CDEF_HAVE_BOTTOM != 0 ==> by + 2 < cfg.bh,
                edges & CDEF_HAVE_BOTTOM == bottom_bit,
                by_start <= by < by_end,
                (by - by_start) % 2 == 0,
                forall|r: int, c: int|
                    0 <= r < old(py).spec_h() && 0 <= c < old(py).spec_w() && !(
                    cdef_luma_may_change(
                        lflvl@,
                        cfg.y_strength@,
                        by_start as int,
                        by + 2,
                        r,
                        c,
                    ) && (r < by * 4 || c < sbx * 64)) ==> #[trigger] py.view()[r][c] == old(
                        py,
                    ).view()[r][c],
                forall|r: int, c: int|
                    0 <= r < old(pu).spec_h() && 0 <= c < old(pu).spec_w() && !(
                    cdef_chroma_may_change(
                        lflvl@,
                        cfg.uv_strength@,
                        cfg.layout,
                        by_start as int,
                        by + 2,
                        r,
                        c,
                    ) && (r < spec_uv_row(cfg.layout, by as int) || c < spec_uv_col(
                        cfg.layout,
                        sbx * 16,
                    ))) ==> #[trigger] pu.view()[r][c] == old(pu).view()[r][c],
                forall|r: int, c: int|
                    0 <= r < old(pv).spec_h() && 0 <= c < old(pv).spec_w() && !(
                    cdef_chroma_may_change(
                        lflvl@,
                        cfg.uv_strength@,
                        cfg.layout,
                        by_start as int,
                        by + 2,
                        r,
                        c,
                    ) && (r < spec_uv_row(cfg.layout, by as int) || c < spec_uv_col(
                        cfg.layout,
                        sbx * 16,
                    ))) ==> #[trigger] pv.view()[r][c] == old(pv).view()[r][c],
                cdef_row_ctx_ok(
                    *py,
                    *pu,
                    *pv,
                    *bufs,
                    *cfg,
                    by as int,
                    by_start as int,
                    by_end as int,
                    sbrow_start,
                    sby as int,
                    tf,
                    edges,
                ),
                cfg.layout is I400 ==> *pu == *old(pu) && *pv == *old(pv),
            decreases sb64w - sbx,
        {
            let sb128x = sbx / 2;
            let sb64_idx: usize = (by / 16 % 2) * 2 + sbx % 2;
            let cdef_idx = lflvl[sb128x].cdef_idx[sb64_idx];
            let by_idx: usize = (by % 32) / 2;
            let noskip = lflvl[sb128x].noskip[by_idx];
            proof {
                assert(cdef_idx as int == spec_cdef_idx_at(lflvl@, by as int, sbx as int));
                assert(noskip == spec_cdef_noskip_at(lflvl@, by as int, sbx as int));
            }
            let ghost py_pre = py.view();
            let ghost pu_pre = pu.view();
            let ghost pv_pre = pv.view();
            cdef_filter_sb64(
                k,
                py,
                pu,
                pv,
                bufs,
                cfg,
                &mut bak0,
                &mut bak1,
                &mut bit,
                &mut last_skip,
                &mut prev_flag,
                &mut edges,
                cdef_idx,
                noskip,
                sbx,
                by,
                by_start,
                by_end,
                sbrow_start,
                sby,
                tf,
            );
            proof {
                let e = edges;
                assert((e | CDEF_HAVE_LEFT) & CDEF_HAVE_LEFT != 0 && (e | CDEF_HAVE_LEFT)
                    & CDEF_HAVE_TOP == e & CDEF_HAVE_TOP && (e | CDEF_HAVE_LEFT)
                    & CDEF_HAVE_BOTTOM == e & CDEF_HAVE_BOTTOM) by (bit_vector);
                lemma_brow_step_luma(
                    old(py).view(),
                    py_pre,
                    py.view(),
                    lflvl@,
                    cfg.y_strength@,
                    by_start as int,
                    by as int,
                    sbx as int,
                    cdef_idx as int,
                    noskip,
                    old(py).spec_h() as int,
                    old(py).spec_w() as int,
                );
                lemma_brow_step_chroma(
                    old(pu).view(),
                    pu_pre,
                    pu.view(),
                    lflvl@,
                    cfg.uv_strength@,
                    cfg.layout,
                    by_start as int,
                    by as int,
                    sbx as int,
                    cdef_idx as int,
                    noskip,
                    old(pu).spec_h() as int,
                    old(pu).spec_w() as int,
                );
                lemma_brow_step_chroma(
                    old(pv).view(),
                    pv_pre,
                    pv.view(),
                    lflvl@,
                    cfg.uv_strength@,
                    cfg.layout,
                    by_start as int,
                    by as int,
                    sbx as int,
                    cdef_idx as int,
                    noskip,
                    old(pv).spec_h() as int,
                    old(pv).spec_w() as int,
                );
            }
            edges = edges | CDEF_HAVE_LEFT;
            sbx = sbx + 1;
        }
        *toggle = !*toggle;
        proof {
            let e = edges;
            assert((e | CDEF_HAVE_TOP) & CDEF_HAVE_TOP != 0 && (e | CDEF_HAVE_TOP)
                & CDEF_HAVE_BOTTOM == e & CDEF_HAVE_BOTTOM) by (bit_vector);
            assert(((by + 2 - by_start) / 2) % 2 != ((by - by_start) / 2) % 2) by {
                vstd::arithmetic::div_mod::lemma_hoist_over_denominator(
                    (by - by_start) as int,
                    1,
                    2,
                );
            }
        }
        proof {
            if took_backup {
                let slot_y = if tf {
                    bufs.line_y_a
                } else {
                    bufs.line_y_b
                };
                let y_dst = if cfg.have_tt {
                    sby * 4
                } else {
                    0int
                };
                assert forall|i: int, c: int|
                    0 <= i < 2 && 0 <= c < old(py).spec_w() implies #[trigger] slot_y.view()[y_dst
                    + i][c] == old(py).view()[by * 4 + 6 + i][c] by {
                    assert(slot_y.view()[y_dst + i][c] == py_at_backup[by * 4 + 6 + i][c]);
                    lemma_band_of(by_start as int, by * 4 + 6 + i);
                    assert(py_at_backup[by * 4 + 6 + i][c] == old(py).view()[by * 4 + 6 + i][c]);
                }
                assert(cdef_backup_rows_ok(
                    slot_y,
                    old(py).view(),
                    y_dst,
                    by * 4 + 6,
                    old(py).spec_w() as int,
                ));
                if !matches!(cfg.layout, Rav1dPixelLayout::I400) {
                    let slot_u = if tf {
                        bufs.line_u_a
                    } else {
                        bufs.line_u_b
                    };
                    let slot_v = if tf {
                        bufs.line_v_a
                    } else {
                        bufs.line_v_b
                    };
                    let uv_dst = if cfg.have_tt {
                        sby * 8
                    } else {
                        0int
                    };
                    let uv_off = if cfg.layout is I420 {
                        2int
                    } else {
                        6int
                    };
                    assert forall|i: int, c: int|
                        0 <= i < 2 && 0 <= c < old(pu).spec_w() implies #[trigger] slot_u.view()[
                        uv_dst + i][c] == old(pu).view()[spec_uv_row(cfg.layout, by as int) + uv_off
                        + i][c] by {
                        assert(slot_u.view()[uv_dst + i][c] == pu_at_backup[spec_uv_row(
                            cfg.layout,
                            by as int,
                        ) + uv_off + i][c]);
                        lemma_band_uv_of(
                            cfg.layout,
                            by_start as int,
                            spec_uv_row(cfg.layout, by as int) + uv_off + i,
                        );
                        let band = spec_cdef_band_uv(
                            cfg.layout,
                            by_start as int,
                            spec_uv_row(cfg.layout, by as int) + uv_off + i,
                        );
                        if band < by {
                            lemma_uv_row_step(cfg.layout, band, by as int);
                            assert(false);
                        }
                        assert(pu_at_backup[spec_uv_row(cfg.layout, by as int) + uv_off + i][c]
                            == old(pu).view()[spec_uv_row(cfg.layout, by as int) + uv_off + i][c]);
                    }
                    assert(cdef_backup_rows_ok(
                        slot_u,
                        old(pu).view(),
                        uv_dst,
                        spec_uv_row(cfg.layout, by as int) + uv_off,
                        old(pu).spec_w() as int,
                    ));
                    assert forall|i: int, c: int|
                        0 <= i < 2 && 0 <= c < old(pv).spec_w() implies #[trigger] slot_v.view()[
                        uv_dst + i][c] == old(pv).view()[spec_uv_row(cfg.layout, by as int) + uv_off
                        + i][c] by {
                        assert(slot_v.view()[uv_dst + i][c] == pv_at_backup[spec_uv_row(
                            cfg.layout,
                            by as int,
                        ) + uv_off + i][c]);
                        lemma_band_uv_of(
                            cfg.layout,
                            by_start as int,
                            spec_uv_row(cfg.layout, by as int) + uv_off + i,
                        );
                        let band = spec_cdef_band_uv(
                            cfg.layout,
                            by_start as int,
                            spec_uv_row(cfg.layout, by as int) + uv_off + i,
                        );
                        if band < by {
                            lemma_uv_row_step(cfg.layout, band, by as int);
                            assert(false);
                        }
                        assert(pv_at_backup[spec_uv_row(cfg.layout, by as int) + uv_off + i][c]
                            == old(pv).view()[spec_uv_row(cfg.layout, by as int) + uv_off + i][c]);
                    }
                    assert(cdef_backup_rows_ok(
                        slot_v,
                        old(pv).view(),
                        uv_dst,
                        spec_uv_row(cfg.layout, by as int) + uv_off,
                        old(pv).spec_w() as int,
                    ));
                }
            }
        }
        by = by + 2;
        edges = edges | CDEF_HAVE_TOP;
    }
    proof {
        assert(((by - by_start) / 2) % 2 == (((by_end - by_start + 1) / 2) % 2));
        if by_start < by_end {
            assert(by - by_start == 2 * ((by_end - by_start + 1) / 2));
            assert(by - 2 == by_start + 2 * ((by_end - by_start + 1) / 2 - 1));
        }
    }
}

} // verus!
