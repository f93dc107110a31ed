//! Wedge and inter-intra mask construction.

use av1_inloop::wedge::build_nondc_ii_masks;
use av1_inloop::wedge::copy2d;
use av1_inloop::wedge::dav1d_init_interintra_masks;
use av1_inloop::wedge::dav1d_init_wedge_masks;
use av1_inloop::wedge::hflip;
use av1_inloop::wedge::ii_set_for;
use av1_inloop::wedge::ii_weight;
use av1_inloop::wedge::init_chroma;
use av1_inloop::wedge::insert_border;
use av1_inloop::wedge::invert;
use av1_inloop::wedge::transposed;
use av1_inloop::wedge::wedge_code_type;
use av1_inloop::wedge::wedge_mask_cell;
use av1_inloop::wedge::wedge_master_border;
use av1_inloop::wedge::WEDGE_OBLIQUE117;

#[test]
fn code_type_fields() {
    let c = wedge_code_type::new(2, 6, WEDGE_OBLIQUE117);
    assert_eq!(c.x_offset, 2);
    assert_eq!(c.y_offset, 6);
    assert_eq!(c.direction, WEDGE_OBLIQUE117);
}

#[test]
fn insert_border_writes_profile_zeros_and_weights() {
    let mut dst = vec![9u8; 64 * 64];
    let profile = wedge_master_border(2);
    insert_border(&mut dst, 1, &profile, 32);
    // Row 1: zeros, then the profile at columns 28..36, then 64.
    for c in 0..28 {
        assert_eq!(dst[64 + c], 0);
    }
    for c in 0..8 {
        assert_eq!(dst[64 + 28 + c], profile[c]);
    }
    for c in 36..64 {
        assert_eq!(dst[64 + c], 64);
    }
    // Other rows untouched.
    assert_eq!(dst[0], 9);
    assert_eq!(dst[2 * 64], 9);
}

#[test]
fn hflip_and_transpose_move_cells() {
    let mut src = vec![0u8; 64 * 64];
    for i in 0..64 * 64 {
        src[i] = (i % 61) as u8;
    }
    let f = hflip(&src);
    let t = transposed(&src);
    for y in 0..64 {
        for x in 0..64 {
            assert_eq!(f[y * 64 + x], src[y * 64 + 63 - x]);
            assert_eq!(t[y * 64 + x], src[x * 64 + y]);
        }
    }
}

#[test]
fn invert_complements_region() {
    let mut buf = vec![0u8, 32, 64, 5, 9, 9, 9, 9];
    invert(&mut buf, 4, 0, 3);
    assert_eq!(buf, vec![0, 32, 64, 5, 64, 32, 0, 9]);
}

#[test]
fn copy2d_crops_master_window() {
    let mut master = vec![0u8; 64 * 64];
    for i in 0..64 * 64 {
        master[i] = (i % 63) as u8;
    }
    let mut dst = vec![0u8; 6];
    copy2d(&mut dst, 0, &master, 3, 2, 10, 20);
    for y in 0..2 {
        for x in 0..3 {
            assert_eq!(dst[y * 3 + x], master[(20 + y) * 64 + 10 + x]);
        }
    }
}

#[test]
fn init_chroma_averages_pairs() {
    // One 4x2 luma mask; 4:2:2-style horizontal-only downsampling.
    let luma = vec![10u8, 21, 30, 40, 50, 60, 62, 64];
    let mut chroma = vec![0u8; 4];
    init_chroma(&mut chroma, 0, &luma, 0, 0, 4, 2, 0);
    assert_eq!(chroma, vec![16, 35, 55, 63]);
    // The round-down variant differs where the sum is even.
    let mut chroma_dn = vec![0u8; 4];
    init_chroma(&mut chroma_dn, 0, &luma, 0, 1, 4, 2, 0);
    assert_eq!(chroma_dn, vec![15, 35, 55, 63]);
    // Full 4:2:0 downsampling averages four samples.
    let mut c420 = vec![0u8; 2];
    init_chroma(&mut c420, 0, &luma, 0, 0, 4, 2, 1);
    assert_eq!(c420[0], (10 + 21 + 1 + 50 + 60 + 1) / 4);
    assert_eq!(c420[1], (30 + 40 + 1 + 62 + 64 + 1) / 4);
}

#[test]
fn wedge_masks_shapes_and_signs() {
    let wm = dav1d_init_wedge_masks();
    assert_eq!(wm.shapes.len(), 9);
    let dims = [
        (32usize, 32usize, 0x7bfbu32),
        (32, 16, 0x7beb),
        (32, 8, 0x6beb),
        (16, 32, 0x7beb),
        (16, 16, 0x7bfb),
        (16, 8, 0x7beb),
        (8, 32, 0x7aeb),
        (8, 16, 0x7beb),
        (8, 8, 0x7bfb),
    ];
    for (k, &(w, h, signs)) in dims.iter().enumerate() {
        let s = &wm.shapes[k];
        assert_eq!((s.w, s.h, s.signs), (w, h, signs));
        assert_eq!(s.m444.len(), 32 * w * h);
        assert_eq!(s.m422.len(), 32 * (w / 2) * h);
        assert_eq!(s.m420.len(), 32 * (w / 2) * (h / 2));
    }
}

#[test]
fn wedge_masks_complement_relation() {
    let wm = dav1d_init_wedge_masks();
    let s = &wm.shapes[8];
    let wh = 64;
    for n in 0..16 {
        for i in 0..wh {
            assert_eq!(s.m444[(16 + n) * wh + i], 64 - s.m444[n * wh + i]);
        }
    }
}

#[test]
fn wedge_masks_weights_in_range_and_nontrivial() {
    let wm = dav1d_init_wedge_masks();
    let s = &wm.shapes[0];
    let mut seen_low = false;
    let mut seen_high = false;
    for &v in s.m444.iter() {
        assert!(v <= 64);
        if v < 8 {
            seen_low = true;
        }
        if v > 56 {
            seen_high = true;
        }
    }
    assert!(seen_low && seen_high);
}

#[test]
fn wedge_mask_cell_chroma_matches_average() {
    let wm = dav1d_init_wedge_masks();
    let s = &wm.shapes[8];
    let wh = 64;
    let n = 0usize;
    let sgn = ((s.signs >> n) & 1) as usize;
    let base = (sgn * 16 + n) * wh;
    // 4:2:0 cell (0,0) is the rounded-up average of the four covering
    // luma cells of the sign-selected mask.
    let expect = (s.m444[base] as u16 + s.m444[base + 1] as u16 + 1 + s.m444[base + 8] as u16
        + s.m444[base + 9] as u16 + 1) / 4;
    assert_eq!(wedge_mask_cell(s, 2, false, n, 0) as u16, expect);
    // The complement slot uses the round-down bias.
    let expect_dn = (s.m444[base] as u16 + s.m444[base + 1] as u16 + 1 + s.m444[base + 8] as u16
        + s.m444[base + 9] as u16 + 1 - 1) / 4;
    assert_eq!(wedge_mask_cell(s, 2, true, n, 0) as u16, expect_dn);
    // 4:4:4 serves the sign-selected mask for both complement flags.
    assert_eq!(wedge_mask_cell(s, 0, false, n, 5), s.m444[base + 5]);
}

#[test]
fn ii_weight_ramp_values() {
    assert_eq!(ii_weight(0), 60);
    assert_eq!(ii_weight(1), 52);
    assert_eq!(ii_weight(16), 6);
    assert_eq!(ii_weight(31), 1);
}

#[test]
fn nondc_ii_masks_follow_the_ramp() {
    let m = build_nondc_ii_masks(8, 8, 4);
    assert_eq!(m.len(), 3 * 64);
    for y in 0..8usize {
        for x in 0..8usize {
            assert_eq!(m[y * 8 + x], ii_weight(y * 4));
            assert_eq!(m[64 + y * 8 + x], ii_weight(x * 4));
            assert_eq!(m[128 + y * 8 + x], ii_weight(x.min(y) * 4));
        }
    }
}

#[test]
fn interintra_tables_built() {
    let ii = dav1d_init_interintra_masks();
    assert_eq!(ii.dc.len(), 1024);
    assert!(ii.dc.iter().all(|&v| v == 32));
    assert_eq!(ii.sets.len(), 9);
    let dims = [
        (32usize, 32usize, 1usize),
        (16, 32, 1),
        (16, 16, 2),
        (8, 32, 1),
        (8, 16, 2),
        (8, 8, 4),
        (4, 16, 2),
        (4, 8, 4),
        (4, 4, 8),
    ];
    for (k, &(w, h, step)) in dims.iter().enumerate() {
        let s = &ii.sets[k];
        assert_eq!((s.w, s.h, s.step), (w, h, step));
        assert_eq!(s.masks.len(), 3 * w * h);
        assert_eq!(s.masks[0], 60);
    }
}

#[test]
fn ii_set_mapping() {
    // 32x32 blocks use the largest tier for luma and shrink per layout.
    assert_eq!(ii_set_for(7, 0), Some(0));
    assert_eq!(ii_set_for(7, 1), Some(1));
    assert_eq!(ii_set_for(7, 2), Some(2));
    // 8x8 blocks bottom out at the 4x4 tier for 4:2:0.
    assert_eq!(ii_set_for(17, 0), Some(5));
    assert_eq!(ii_set_for(17, 2), Some(8));
    // Sizes without inter-intra prediction have no masks.
    assert_eq!(ii_set_for(0, 0), None);
    assert_eq!(ii_set_for(21, 1), None);
}
