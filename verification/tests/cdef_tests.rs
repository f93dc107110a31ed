//! CDEF behaviour: strength adaptation, direction remap, context
//! resolution, line backups, and the skip / monochrome guarantees.

use av1_inloop::cdef_apply::adjust_strength;
use av1_inloop::cdef_apply::backup2lines;
use av1_inloop::cdef_apply::backup2x8;
use av1_inloop::cdef_apply::cdef_levels;
use av1_inloop::cdef_apply::copy_rows;
use av1_inloop::cdef_apply::gather_ctx_rows;
use av1_inloop::cdef_apply::rav1d_cdef_brow;
use av1_inloop::cdef_apply::resolve_ctx;
use av1_inloop::cdef_apply::ulog2;
use av1_inloop::cdef_apply::uv_dir;
use av1_inloop::cdef_apply::Backup2x8;
use av1_inloop::cdef_apply::CdefCfg;
use av1_inloop::cdef_apply::CdefKernel;
use av1_inloop::cdef_apply::CdefLineBuffers;
use av1_inloop::cdef_apply::CdefMasks;
use av1_inloop::cdef_apply::CtxBuf;
use av1_inloop::cdef_apply::Rav1dPixelLayout;
use av1_inloop::cdef_apply::CDEF_HAVE_BOTTOM;
use av1_inloop::cdef_apply::CDEF_HAVE_LEFT;
use av1_inloop::cdef_apply::CDEF_HAVE_RIGHT;
use av1_inloop::cdef_apply::CDEF_HAVE_TOP;
use av1_inloop::plane::Plane;

#[test]
fn ulog2_floor_values() {
    assert_eq!(ulog2(1), 0);
    assert_eq!(ulog2(2), 1);
    assert_eq!(ulog2(3), 1);
    assert_eq!(ulog2(4), 2);
    assert_eq!(ulog2(255), 7);
    assert_eq!(ulog2(0x8000_0000), 31);
}

#[test]
fn adjust_strength_zero_variance_is_zero() {
    for s in [0u32, 1, 64, 3840] {
        assert_eq!(adjust_strength(s, 0), 0);
    }
}

#[test]
fn adjust_strength_exact_values() {
    // var/64 == 4, log2 == 2: strength * (4+2) / 16 with +8 rounding.
    assert_eq!(adjust_strength(64, 256), 24);
    // Tiny variance keeps the index at zero: strength * 4 / 16.
    assert_eq!(adjust_strength(64, 1), 16);
    // Huge variance clamps the index at 12: strength * 16 / 16.
    assert_eq!(adjust_strength(64, u32::MAX), 64);
}

#[test]
fn adjust_strength_monotonic_in_variance() {
    let mut prev = 0;
    for var in [0u32, 1, 63, 64, 128, 256, 1024, 65536, 1 << 20, u32::MAX] {
        let cur = adjust_strength(1000, var);
        assert!(cur >= prev);
        prev = cur;
    }
}

#[test]
fn uv_dir_remap_tables() {
    for d in 0..8u8 {
        assert_eq!(uv_dir(false, d), d);
    }
    let remap = [7u8, 0, 2, 4, 5, 6, 6, 6];
    for d in 0..8u8 {
        assert_eq!(uv_dir(true, d), remap[d as usize]);
    }
}

#[test]
fn resolve_ctx_single_threaded_uses_line_and_plane() {
    let c = resolve_ctx(false, false, 4, 0, 8, false, false, 3, true, 16, 8);
    assert!(matches!(c.top_buf, CtxBuf::CdefLine));
    assert_eq!(c.top_row, 0);
    assert!(matches!(c.bot_buf, CtxBuf::Frame));
    assert_eq!(c.bot_row, 24);
}

#[test]
fn resolve_ctx_first_row_pulls_lowpass_lines() {
    let c = resolve_ctx(true, true, 4, 4, 8, true, false, 2, true, 16, 8);
    assert!(matches!(c.top_buf, CtxBuf::LpfResize));
    assert_eq!(c.top_row, 4);
    assert!(matches!(c.bot_buf, CtxBuf::Frame));
    let c = resolve_ctx(true, true, 4, 4, 8, false, true, 2, true, 16, 8);
    assert!(matches!(c.top_buf, CtxBuf::LpfPadded));
    assert_eq!(c.top_row, 12);
}

#[test]
fn resolve_ctx_last_row_pulls_lowpass_lines() {
    let c = resolve_ctx(true, false, 6, 0, 8, true, false, 2, true, 24, 8);
    assert!(matches!(c.top_buf, CtxBuf::CdefLine));
    assert_eq!(c.top_row, 8);
    assert!(matches!(c.bot_buf, CtxBuf::LpfResize));
    assert_eq!(c.bot_row, 10);
    let c = resolve_ctx(true, false, 6, 0, 8, false, true, 2, false, 12, 4);
    assert_eq!(c.top_row, 16);
    assert!(matches!(c.bot_buf, CtxBuf::LpfPadded));
    assert_eq!(c.bot_row, 22);
}

#[test]
fn resolve_ctx_interior_threaded_row() {
    let c = resolve_ctx(true, false, 2, 0, 8, false, false, 1, true, 8, 8);
    assert!(matches!(c.top_buf, CtxBuf::CdefLine));
    assert_eq!(c.top_row, 4);
    assert!(matches!(c.bot_buf, CtxBuf::Frame));
    assert_eq!(c.bot_row, 16);
}

fn pattern_plane(w: usize, h: usize, seed: u16) -> Plane {
    let mut p = Plane::new(w, h, w, false, 0);
    for r in 0..h {
        for c in 0..w {
            p.set(r, c, seed + (r * w + c) as u16);
        }
    }
    p
}

#[test]
fn gather_gates_unavailable_sides_with_zeros() {
    let p = pattern_plane(12, 4, 100);
    // No left or right neighbour: the two flank columns on each side are
    // zero-filled, the middle comes from the plane.
    let v = gather_ctx_rows(&p, 1, 4, 4, CDEF_HAVE_TOP | CDEF_HAVE_BOTTOM);
    assert_eq!(v.len(), 16);
    assert_eq!(&v[0..2], &[0, 0]);
    assert_eq!(&v[6..8], &[0, 0]);
    for j in 2..6 {
        assert_eq!(v[j], 100 + (1 * 12 + 4 + j as u16 - 2));
        assert_eq!(v[8 + j], 100 + (2 * 12 + 4 + j as u16 - 2));
    }
    // With both sides available every cell comes from the plane.
    let v = gather_ctx_rows(&p, 1, 4, 4, CDEF_HAVE_LEFT | CDEF_HAVE_RIGHT);
    for j in 0..8u16 {
        assert_eq!(v[j as usize], 100 + 12 + 2 + j);
    }
}

#[test]
fn copy_rows_overwrites_stale_backup_completely() {
    let src_a = pattern_plane(6, 8, 1000);
    let src_b = pattern_plane(6, 8, 4000);
    // The backup starts full of stale data.
    let mut dst = Plane::new(6, 4, 6, false, 777);
    copy_rows(&mut dst, 0, &src_a, 6, 2);
    for c in 0..6 {
        assert_eq!(dst.get(0, c), src_a.get(6, c));
        assert_eq!(dst.get(1, c), src_a.get(7, c));
        assert_eq!(dst.get(2, c), 777);
    }
    // Writing the same slot for the next frame leaves nothing of the
    // previous contents in the readable region.
    copy_rows(&mut dst, 0, &src_b, 6, 2);
    for c in 0..6 {
        assert_eq!(dst.get(0, c), src_b.get(6, c));
        assert_eq!(dst.get(1, c), src_b.get(7, c));
    }
}

#[test]
fn backup2lines_takes_band_bottom_rows_per_layout() {
    let sy = pattern_plane(8, 8, 0);
    let su = pattern_plane(4, 4, 500);
    let sv = pattern_plane(4, 4, 900);
    let mut dy = Plane::new(8, 2, 8, false, 7);
    let mut du = Plane::new(4, 2, 4, false, 7);
    let mut dv = Plane::new(4, 2, 4, false, 7);
    backup2lines(&mut dy, &mut du, &mut dv, &sy, &su, &sv, 0, 0, 0, 0, Rav1dPixelLayout::I420);
    for c in 0..8 {
        assert_eq!(dy.get(0, c), sy.get(6, c));
        assert_eq!(dy.get(1, c), sy.get(7, c));
    }
    // 4:2:0 chroma saves rows 2..4 of its four-row band.
    for c in 0..4 {
        assert_eq!(du.get(0, c), su.get(2, c));
        assert_eq!(du.get(1, c), su.get(3, c));
        assert_eq!(dv.get(0, c), sv.get(2, c));
        assert_eq!(dv.get(1, c), sv.get(3, c));
    }
}

#[test]
fn backup2lines_monochrome_leaves_chroma_backups() {
    let sy = pattern_plane(8, 8, 0);
    let su = pattern_plane(4, 8, 500);
    let sv = pattern_plane(4, 8, 900);
    let mut dy = Plane::new(8, 2, 8, false, 7);
    let mut du = Plane::new(4, 2, 4, false, 7);
    let mut dv = Plane::new(4, 2, 4, false, 7);
    backup2lines(&mut dy, &mut du, &mut dv, &sy, &su, &sv, 0, 0, 0, 0, Rav1dPixelLayout::I400);
    for c in 0..4 {
        assert_eq!(du.get(0, c), 7);
        assert_eq!(dv.get(1, c), 7);
    }
}

#[test]
fn backup2x8_snapshots_left_columns() {
    let sy = pattern_plane(16, 8, 0);
    let su = pattern_plane(8, 4, 500);
    let sv = pattern_plane(8, 4, 900);
    let mut bak = Backup2x8::new();
    backup2x8(&mut bak, &sy, &su, &sv, 0, 0, 8, 0, Rav1dPixelLayout::I420, 3);
    for y in 0..8 {
        assert_eq!(bak.get(0, y, 0), sy.get(y, 6));
        assert_eq!(bak.get(0, y, 1), sy.get(y, 7));
    }
    for y in 0..4 {
        assert_eq!(bak.get(1, y, 0), su.get(y, 2));
        assert_eq!(bak.get(1, y, 1), su.get(y, 3));
        assert_eq!(bak.get(2, y, 0), sv.get(y, 2));
        assert_eq!(bak.get(2, y, 1), sv.get(y, 3));
    }
}

/// A kernel that must never run: both entry points fail the test.
struct PanicKernel;

impl CdefKernel for PanicKernel {
    fn dir(&self, _p: &Plane, _x: usize, _y: usize, _bdmax: u16) -> (u8, u32) {
        panic!("direction search reached on a skipped unit");
    }

    fn fb(
        &self,
        _p: &mut Plane,
        _x: usize,
        _y: usize,
        _w: usize,
        _h: usize,
        _left: &Backup2x8,
        _pl: usize,
        _top: &Vec<u16>,
        _bot: &Vec<u16>,
        _pri: u32,
        _sec: u32,
        _dir: u8,
        _damping: u8,
        _edges: u8,
        _bdmax: u16,
    ) {
        panic!("filter reached on a skipped unit");
    }
}

/// A kernel that stamps a marker into the unit it filters.
struct MarkKernel;

impl CdefKernel for MarkKernel {
    fn dir(&self, _p: &Plane, _x: usize, _y: usize, _bdmax: u16) -> (u8, u32) {
        (0, 0)
    }

    fn fb(
        &self,
        p: &mut Plane,
        x: usize,
        y: usize,
        _w: usize,
        _h: usize,
        _left: &Backup2x8,
        _pl: usize,
        _top: &Vec<u16>,
        _bot: &Vec<u16>,
        _pri: u32,
        _sec: u32,
        _dir: u8,
        _damping: u8,
        _edges: u8,
        _bdmax: u16,
    ) {
        p.set(y, x, 999);
    }
}

fn mk_bufs(yw: usize, uw: usize) -> CdefLineBuffers {
    CdefLineBuffers {
        line_y_a: Plane::new(yw, 4, yw, false, 0),
        line_u_a: Plane::new(uw, 4, uw, false, 0),
        line_v_a: Plane::new(uw, 4, uw, false, 0),
        line_y_b: Plane::new(yw, 4, yw, false, 0),
        line_u_b: Plane::new(uw, 4, uw, false, 0),
        line_v_b: Plane::new(uw, 4, uw, false, 0),
        lpf_y: Plane::new(yw, 8, yw, false, 0),
        lpf_u: Plane::new(uw, 8, uw, false, 0),
        lpf_v: Plane::new(uw, 8, uw, false, 0),
        lr_y: Plane::new(yw, 16, yw, false, 0),
        lr_u: Plane::new(uw, 16, uw, false, 0),
        lr_v: Plane::new(uw, 16, uw, false, 0),
    }
}

fn cfg_with(layout: Rav1dPixelLayout, y_str: u8, uv_str: u8) -> CdefCfg {
    CdefCfg {
        layout,
        damping: 3,
        s: 0,
        bdmax: 255,
        bw: 2,
        bh: 2,
        sb128w: 1,
        sb128: false,
        resize: false,
        have_tt: false,
        y_strength: vec![y_str, 0, 0, 0, 0, 0, 0, 0],
        uv_strength: vec![uv_str, 0, 0, 0, 0, 0, 0, 0],
    }
}

fn masks_all_on(idx: i8) -> Vec<CdefMasks> {
    vec![CdefMasks { cdef_idx: [idx, -1, -1, -1], noskip: [0xffff_ffff; 16] }]
}

#[test]
fn zero_strengths_skip_whole_block() {
    // Both strengths zero for the block's index: the unit is one skip and
    // no kernel ever runs, so no pixel changes.
    let cfg = cfg_with(Rav1dPixelLayout::I420, 0, 0);
    let mut py = pattern_plane(12, 16, 0);
    let mut pu = pattern_plane(10, 12, 500);
    let mut pv = pattern_plane(10, 12, 900);
    let snap_y: Vec<u16> = py.data.clone();
    let snap_u: Vec<u16> = pu.data.clone();
    let mut bufs = mk_bufs(12, 10);
    let mut toggle = false;
    rav1d_cdef_brow(&PanicKernel, &mut py, &mut pu, &mut pv, &mut bufs, &cfg, &masks_all_on(0), &mut toggle, 0, 2, false, 0);
    assert_eq!(py.data, snap_y);
    assert_eq!(pu.data, snap_u);
    assert!(toggle);
}

#[test]
fn disabled_index_skips_whole_block() {
    let cfg = cfg_with(Rav1dPixelLayout::I420, 9, 9);
    let mut py = pattern_plane(12, 16, 0);
    let mut pu = pattern_plane(10, 12, 500);
    let mut pv = pattern_plane(10, 12, 900);
    let snap_y: Vec<u16> = py.data.clone();
    let mut bufs = mk_bufs(12, 10);
    let mut toggle = false;
    rav1d_cdef_brow(&PanicKernel, &mut py, &mut pu, &mut pv, &mut bufs, &cfg, &masks_all_on(-1), &mut toggle, 0, 2, false, 0);
    assert_eq!(py.data, snap_y);
}

#[test]
fn monochrome_never_touches_chroma() {
    let cfg = cfg_with(Rav1dPixelLayout::I400, 1, 0);
    let mut py = pattern_plane(16, 16, 0);
    let mut pu = Plane::new(16, 18, 16, false, 31337);
    let mut pv = Plane::new(16, 18, 16, false, 31337);
    let snap_u: Vec<u16> = pu.data.clone();
    let snap_v: Vec<u16> = pv.data.clone();
    let mut bufs = mk_bufs(16, 16);
    let mut toggle = false;
    rav1d_cdef_brow(&MarkKernel, &mut py, &mut pu, &mut pv, &mut bufs, &cfg, &masks_all_on(0), &mut toggle, 0, 2, false, 0);
    // Luma was filtered; the chroma sentinels are untouched.
    assert_eq!(py.get(0, 0), 999);
    assert_eq!(pu.data, snap_u);
    assert_eq!(pv.data, snap_v);
}

#[test]
fn noskip_mask_gates_units() {
    let cfg = cfg_with(Rav1dPixelLayout::I420, 4, 0);
    let mut py = pattern_plane(12, 16, 0);
    let mut pu = pattern_plane(10, 12, 500);
    let mut pv = pattern_plane(10, 12, 900);
    let mut bufs = mk_bufs(12, 10);
    let mut toggle = false;
    // An empty no-skip mask: every unit is bypassed.
    let masks = vec![CdefMasks { cdef_idx: [0, -1, -1, -1], noskip: [0; 16] }];
    let snap_y: Vec<u16> = py.data.clone();
    rav1d_cdef_brow(&PanicKernel, &mut py, &mut pu, &mut pv, &mut bufs, &cfg, &masks, &mut toggle, 0, 2, false, 0);
    assert_eq!(py.data, snap_y);
}

#[test]
fn toggle_flips_once_per_row_pair() {
    let cfg = cfg_with(Rav1dPixelLayout::I420, 0, 0);
    let mut py = pattern_plane(12, 24, 0);
    let mut pu = pattern_plane(10, 14, 500);
    let mut pv = pattern_plane(10, 14, 900);
    let mut bufs = mk_bufs(12, 10);
    let mut toggle = false;
    // Two row pairs: the toggle returns to its initial state.
    let cfg2 = CdefCfg { bh: 4, ..cfg };
    rav1d_cdef_brow(&PanicKernel, &mut py, &mut pu, &mut pv, &mut bufs, &cfg2, &masks_all_on(0), &mut toggle, 0, 4, false, 0);
    assert!(!toggle);
}

#[test]
fn edge_flag_values() {
    assert_eq!(CDEF_HAVE_LEFT, 1);
    assert_eq!(CDEF_HAVE_RIGHT, 2);
    assert_eq!(CDEF_HAVE_TOP, 4);
    assert_eq!(CDEF_HAVE_BOTTOM, 8);
}

#[test]
fn brow_snapshots_band_bottom_before_skipping() {
    // Even a fully skipped row pair first saves its band's bottom rows
    // into the toggled top-line slot, for the next row's pass.
    let cfg = CdefCfg { bh: 4, ..cfg_with(Rav1dPixelLayout::I420, 0, 0) };
    let mut py = pattern_plane(12, 24, 0);
    let mut pu = pattern_plane(10, 14, 500);
    let mut pv = pattern_plane(10, 14, 900);
    let mut bufs = mk_bufs(12, 10);
    let mut toggle = false;
    rav1d_cdef_brow(&PanicKernel, &mut py, &mut pu, &mut pv, &mut bufs, &cfg, &masks_all_on(0), &mut toggle, 0, 2, false, 0);
    for c in 0..12 {
        assert_eq!(bufs.line_y_b.get(0, c), py.get(6, c));
        assert_eq!(bufs.line_y_b.get(1, c), py.get(7, c));
    }
    for c in 0..10 {
        assert_eq!(bufs.line_u_b.get(0, c), pu.get(2, c));
        assert_eq!(bufs.line_u_b.get(1, c), pu.get(3, c));
    }
}

#[test]
fn per_block_skip_leaves_exactly_that_block() {
    // Two 64-pixel block columns: the first enabled, the second disabled
    // by index -1.  Only the first block's units are stamped; every
    // sample of the disabled block keeps its value.
    let mut cfg = cfg_with(Rav1dPixelLayout::I420, 1, 0);
    cfg.bw = 18;
    let mut py = pattern_plane(76, 16, 0);
    let mut pu = pattern_plane(40, 12, 500);
    let mut pv = pattern_plane(40, 12, 900);
    let snap_y: Vec<u16> = py.data.clone();
    let mut bufs = mk_bufs(76, 40);
    let mut toggle = false;
    let masks = vec![CdefMasks { cdef_idx: [0, -1, -1, -1], noskip: [0xffff_ffff; 16] }];
    rav1d_cdef_brow(&MarkKernel, &mut py, &mut pu, &mut pv, &mut bufs, &cfg, &masks, &mut toggle, 0, 2, false, 0);
    // The enabled block's units were stamped at their origins.
    assert_eq!(py.get(0, 0), 999);
    assert_eq!(py.get(0, 8), 999);
    // Every sample at and right of column 64 belongs to the disabled
    // block and is untouched.
    for r in 0..16 {
        for c in 64..76 {
            assert_eq!(py.get(r, c), snap_y[r * 76 + c]);
        }
    }
}

#[test]
fn backup_slot_holds_last_band_bottom_rows_after_pass() {
    // After a pass with an active block, the slot written for the last
    // band still holds that band's pre-filter bottom rows.
    let cfg = CdefCfg { bh: 4, ..cfg_with(Rav1dPixelLayout::I420, 1, 0) };
    let mut py = pattern_plane(12, 24, 0);
    let mut pu = pattern_plane(10, 14, 500);
    let mut pv = pattern_plane(10, 14, 900);
    let snap_y: Vec<u16> = py.data.clone();
    let snap_u: Vec<u16> = pu.data.clone();
    let mut bufs = mk_bufs(12, 10);
    let mut toggle = false;
    rav1d_cdef_brow(&MarkKernel, &mut py, &mut pu, &mut pv, &mut bufs, &cfg, &masks_all_on(0), &mut toggle, 0, 2, false, 0);
    assert!(toggle);
    // The last (only) band is block-row pair 0; its slot is the one the
    // final toggle does not select.
    for c in 0..12 {
        assert_eq!(bufs.line_y_b.get(0, c), snap_y[6 * 12 + c]);
        assert_eq!(bufs.line_y_b.get(1, c), snap_y[7 * 12 + c]);
    }
    for c in 0..10 {
        assert_eq!(bufs.line_u_b.get(0, c), snap_u[2 * 10 + c]);
        assert_eq!(bufs.line_u_b.get(1, c), snap_u[3 * 10 + c]);
    }
}

#[test]
fn cdef_levels_split_strength_byte() {
    // Upper bits scale to the primary level, lower two to the secondary,
    // with the reserved value 3 promoted to 4.
    assert_eq!(cdef_levels(0, 0), (0, 0));
    assert_eq!(cdef_levels(7, 0), (1, 4));
    assert_eq!(cdef_levels(7, 2), (4, 16));
    assert_eq!(cdef_levels(63, 0), (15, 4));
    assert_eq!(cdef_levels(62, 4), (240, 32));
}
