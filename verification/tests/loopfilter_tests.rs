//! Loop filter behaviour: threshold tables, flat edges, the narrow
//! correction branch, mask walkers and kernel dispatch.

use av1_inloop::loopfilter::loop_filter_h_sb128uv;
use av1_inloop::loopfilter::loop_filter_h_sb128y;
use av1_inloop::loopfilter::loop_filter_v_sb128y;
use av1_inloop::loopfilter::loop_filter_lane;
use av1_inloop::loopfilter::rav1d_loop_filter_dsp_init;
use av1_inloop::loopfilter::LoopFilterKernel;
use av1_inloop::lut::Av1FilterLUT;
use av1_inloop::plane::Plane;

fn lane(win: &[u16], wd: usize, e8: u8, i8v: u8, h8: u8, s: u8, bdmax: u16) -> Vec<u16> {
    let mut v: Vec<u16> = win.to_vec();
    loop_filter_lane(&mut v, wd, e8, i8v, h8, s, bdmax);
    v
}

#[test]
fn lut_matches_canonical_tables_sharpness_zero() {
    let lut = Av1FilterLUT::new(0);
    // With zero sharpness the limit is the level itself, floored at 1.
    assert_eq!(lut.i[0], 1);
    assert_eq!(lut.e[0], 5);
    assert_eq!(lut.i[1], 1);
    assert_eq!(lut.e[1], 7);
    assert_eq!(lut.i[32], 32);
    assert_eq!(lut.e[32], 100);
    assert_eq!(lut.i[63], 63);
    assert_eq!(lut.e[63], 193);
    for l in 0..64usize {
        let limit = if l == 0 { 1 } else { l as u16 };
        assert_eq!(lut.i[l] as u16, limit);
        assert_eq!(lut.e[l] as u16, 2 * (l as u16 + 2) + limit);
    }
}

#[test]
fn lut_matches_canonical_tables_high_sharpness() {
    let lut = Av1FilterLUT::new(5);
    // Sharpness 5 quarters the level and clamps it to 9 - sharpness.
    for l in 0..64usize {
        let mut limit = l / 4;
        if limit > 4 {
            limit = 4;
        }
        if limit < 1 {
            limit = 1;
        }
        assert_eq!(lut.i[l] as usize, limit);
        assert_eq!(lut.e[l] as usize, 2 * (l + 2) + limit);
    }
    assert_eq!(lut.sharp0, 2);
    assert_eq!(lut.sharp1, 4);
}

#[test]
fn flat_edge_unchanged_all_widths() {
    for &wd in &[4usize, 6, 8, 16] {
        let b = if wd >= 16 { 7 } else { wd / 2 };
        let win = vec![37u16; 2 * b];
        let out = lane(&win, wd, 255, 255, 0, 0, 255);
        assert_eq!(out, win);
    }
}

#[test]
fn flat_edge_unchanged_ten_bit() {
    let win = vec![700u16; 14];
    let out = lane(&win, 16, 180, 63, 2, 2, 1023);
    assert_eq!(out, win);
}

#[test]
fn step_edge_selects_wide8_average() {
    // Both sides internally flat, so the inner flatness test passes and
    // the 8-wide weighted average smooths the step.
    let win = [10u16, 10, 10, 10, 50, 50, 50, 50];
    let out = lane(&win, 8, 255, 255, 0, 0, 255);
    assert_eq!(out, vec![10, 15, 20, 25, 35, 40, 45, 50]);
}

#[test]
fn noisy_side_takes_hev_branch_corrects_edge_pair_only() {
    // |p1 - p0| exceeds both the flatness threshold and H, so the
    // high-edge-variance branch corrects only p0 and q0.
    let win = [10u16, 10, 13, 10, 50, 50, 50, 50];
    let out = lane(&win, 8, 255, 255, 0, 0, 255);
    assert_eq!(out, vec![10, 10, 13, 20, 40, 50, 50, 50]);
}

#[test]
fn low_variance_narrow_branch_corrects_two_pairs() {
    // A clean step at width 4: no flatness data, low edge variance, so
    // p1/q1 receive the halved correction as well.
    let win = [10u16, 10, 50, 50];
    let out = lane(&win, 4, 255, 255, 0, 0, 255);
    assert_eq!(out, vec![18, 25, 35, 42]);
}

#[test]
fn wide16_flat_step_smooths_twelve_samples() {
    let mut win = vec![10u16; 7];
    win.extend(vec![26u16; 7]);
    let out = lane(&win, 16, 255, 255, 0, 0, 255);
    // Outer samples stay, the twelve inner ones move monotonically.
    assert_eq!(out[0], 10);
    assert_eq!(out[13], 26);
    for k in 0..13 {
        assert!(out[k] <= out[k + 1]);
    }
    // The exact centre pair of the 16-weight average.
    assert_eq!(out[6], 17);
    assert_eq!(out[7], 19);
}

fn step_plane(w: usize, h: usize, edge: usize) -> Plane {
    let mut p = Plane::new(w, h, w, false, 10);
    for r in 0..h {
        for c in edge..w {
            p.set(r, c, 50);
        }
    }
    p
}

#[test]
fn walker_zero_level_skips_everything() {
    let lut = Av1FilterLUT::new(0);
    let mut p = step_plane(16, 8, 8);
    let before: Vec<u16> = (0..8).flat_map(|r| (0..16).map(move |c| (r, c))).map(|(r, c)| p.get(r, c)).collect();
    let lvl = vec![0u8; 8];
    loop_filter_h_sb128y(&mut p, &lut, 8, 0, &[3, 0, 0], &lvl, 4, 1, 0, 255);
    let after: Vec<u16> = (0..8).flat_map(|r| (0..16).map(move |c| (r, c))).map(|(r, c)| p.get(r, c)).collect();
    assert_eq!(before, after);
}

#[test]
fn walker_filters_masked_edge_rows() {
    let lut = Av1FilterLUT::new(0);
    let mut p = step_plane(16, 8, 8);
    let mut lvl = vec![0u8; 8];
    lvl[4] = 32;
    // One width-4 edge at bit zero: rows 0..4 of column 8.
    loop_filter_h_sb128y(&mut p, &lut, 8, 0, &[1, 0, 0], &lvl, 4, 1, 0, 255);
    for r in 0..4 {
        assert_eq!(p.get(r, 6), 18);
        assert_eq!(p.get(r, 7), 25);
        assert_eq!(p.get(r, 8), 35);
        assert_eq!(p.get(r, 9), 42);
        assert_eq!(p.get(r, 5), 10);
        assert_eq!(p.get(r, 10), 50);
    }
    for r in 4..8 {
        assert_eq!(p.get(r, 7), 10);
        assert_eq!(p.get(r, 8), 50);
    }
}

#[test]
fn walker_level_zero_falls_back_to_left_neighbour() {
    let lut = Av1FilterLUT::new(0);
    let mut p = step_plane(16, 8, 8);
    let mut lvl = vec![0u8; 8];
    // The edge's own level is zero; the neighbour one entry back is used.
    lvl[3] = 32;
    loop_filter_h_sb128y(&mut p, &lut, 8, 0, &[1, 0, 0], &lvl, 4, 1, 0, 255);
    assert_eq!(p.get(0, 7), 25);
    assert_eq!(p.get(0, 8), 35);
}

#[test]
fn dispatch_selects_generic_and_matches_direct_path() {
    let table = rav1d_loop_filter_dsp_init();
    assert!(matches!(table.sb_y_h, LoopFilterKernel::Generic));
    assert!(matches!(table.sb_y_v, LoopFilterKernel::Generic));
    assert!(matches!(table.sb_uv_h, LoopFilterKernel::Generic));
    assert!(matches!(table.sb_uv_v, LoopFilterKernel::Generic));

    let lut = Av1FilterLUT::new(0);
    let mut lvl = vec![0u8; 8];
    lvl[4] = 32;
    let mut p1 = step_plane(16, 8, 8);
    let mut p2 = step_plane(16, 8, 8);
    table.loop_filter_sb_y(&mut p1, &lut, false, 8, 0, &[1, 0, 0], &lvl, 4, 1, 0, 255);
    loop_filter_h_sb128y(&mut p2, &lut, 8, 0, &[1, 0, 0], &lvl, 4, 1, 0, 255);
    for r in 0..8 {
        for c in 0..16 {
            assert_eq!(p1.get(r, c), p2.get(r, c));
        }
    }
}

#[test]
fn plane_flipped_layout_mirrors_rows() {
    let mut p = Plane::new(4, 3, 4, true, 0);
    p.set(0, 1, 5);
    assert_eq!(p.get(0, 1), 5);
    // Logical row 0 of a bottom-up buffer lives in the last physical row.
    assert_eq!(p.data[2 * 4 + 1], 5);
    assert_eq!(p.data[1], 0);
}

#[test]
fn iclip_clamps_both_ends() {
    assert_eq!(av1_inloop::iclip(5, 0, 10), 5);
    assert_eq!(av1_inloop::iclip(-5, 0, 10), 0);
    assert_eq!(av1_inloop::iclip(15, 0, 10), 10);
}

#[test]
fn chroma_walker_uses_six_tap_width() {
    let lut = Av1FilterLUT::new(0);
    let mut p = step_plane(16, 8, 8);
    let mut lvl = vec![0u8; 8];
    lvl[4] = 32;
    // The second chroma mask tier selects the six-tap filter.
    loop_filter_h_sb128uv(&mut p, &lut, 8, 0, &[1, 1], &lvl, 4, 1, 0, 255);
    for r in 0..4 {
        assert_eq!(p.get(r, 5), 10);
        assert_eq!(p.get(r, 6), 15);
        assert_eq!(p.get(r, 7), 25);
        assert_eq!(p.get(r, 8), 35);
        assert_eq!(p.get(r, 9), 45);
        assert_eq!(p.get(r, 10), 50);
    }
}

#[test]
fn vertical_walker_filters_across_horizontal_edge() {
    let lut = Av1FilterLUT::new(0);
    let mut p = Plane::new(16, 16, 16, false, 10);
    for r in 8..16 {
        for c in 0..16 {
            p.set(r, c, 50);
        }
    }
    let mut lvl = vec![0u8; 8];
    lvl[4] = 32;
    // One width-4 horizontal edge at row 8, columns 0..4.
    loop_filter_v_sb128y(&mut p, &lut, 0, 8, &[1, 0, 0], &lvl, 4, 4, 0, 255);
    for c in 0..4 {
        assert_eq!(p.get(6, c), 18);
        assert_eq!(p.get(7, c), 25);
        assert_eq!(p.get(8, c), 35);
        assert_eq!(p.get(9, c), 42);
        assert_eq!(p.get(5, c), 10);
        assert_eq!(p.get(10, c), 50);
    }
    for c in 4..16 {
        assert_eq!(p.get(7, c), 10);
        assert_eq!(p.get(8, c), 50);
    }
}
