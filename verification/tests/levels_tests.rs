//! Block metadata: motion vectors and the per-block mode record.

use av1_inloop::levels::mv;
use av1_inloop::levels::Av1Block;
use av1_inloop::levels::Av1BlockInterKind;
use av1_inloop::levels::Av1BlockKind;
use av1_inloop::levels::Av1Block_inter;
use av1_inloop::levels::Av1Block_inter_1d;
use av1_inloop::levels::Av1Block_inter_2d;

#[test]
fn mv_validity() {
    assert!(mv::invalid().is_invalid());
    assert!(!mv::invalid().is_valid());
    assert!(mv::zero().is_valid());
    let m = mv { y: -3, x: 7 };
    assert!(m.is_valid());
    let n = m.neg();
    assert_eq!((n.y, n.x), (3, -7));
    assert_eq!(mv::default(), mv::zero());
}

fn inter_block() -> Av1Block {
    Av1Block {
        bl: 1,
        bs: 17,
        bp: 0,
        intra: 0,
        seg_id: 2,
        skip_mode: 0,
        skip: 0,
        uvtx: 1,
        kind: Av1BlockKind::Inter(Av1Block_inter {
            kind: Av1BlockInterKind::OneD(Av1Block_inter_1d {
                mv: [mv { y: 4, x: -2 }, mv::zero()],
                wedge_idx: 5,
                mask_sign: 1,
                interintra_mode: 2,
            }),
            comp_type: 4,
            inter_mode: 3,
            motion_mode: 0,
            drl_idx: 1,
            refs: [0, 3],
            max_ytx: 2,
            filter2d: 6,
            interintra_type: 1,
            tx_split0: 0,
            tx_split1: 9,
        }),
    }
}

#[test]
fn inter_accessors_read_their_fields() {
    let b = inter_block();
    assert_eq!(b.comp_type(), 4);
    assert_eq!(b.inter_mode(), 3);
    assert_eq!(b.motion_mode(), 0);
    assert_eq!(b.drl_idx(), 1);
    assert_eq!(b.refs(), [0, 3]);
    assert_eq!(b.max_ytx(), 2);
    assert_eq!(b.filter2d(), 6);
    assert_eq!(b.interintra_type(), 1);
    assert_eq!(b.tx_split0(), 0);
    assert_eq!(b.tx_split1(), 9);
    assert_eq!(b.wedge_idx(), 5);
    assert_eq!(b.mask_sign(), 1);
    assert_eq!(b.interintra_mode(), 2);
    let mvs = b.mvs();
    assert_eq!((mvs[0].y, mvs[0].x), (4, -2));
}

#[test]
fn warped_accessors_read_their_fields() {
    let b = Av1Block {
        kind: Av1BlockKind::Inter(Av1Block_inter {
            kind: Av1BlockInterKind::TwoD(Av1Block_inter_2d {
                mv2d: mv { y: 1, x: 2 },
                matrix: [10, -20, 30, -40],
            }),
            ..match inter_block().kind {
                Av1BlockKind::Inter(i) => i,
                _ => unreachable!(),
            }
        }),
        ..inter_block()
    };
    assert_eq!((b.mv2d().y, b.mv2d().x), (1, 2));
    assert_eq!(b.matrix(), [10, -20, 30, -40]);
}

#[test]
fn default_block_is_intra() {
    let b = Av1Block::default();
    assert_eq!(b.bl, 0);
    assert_eq!(b.y_mode(), 0);
    assert_eq!(b.uv_mode(), 0);
    assert_eq!(b.tx(), 0);
    assert_eq!(b.pal_sz(), [0, 0]);
    assert_eq!(b.cfl_alpha(), [0, 0]);
    assert_eq!(b.y_angle(), 0);
    assert_eq!(b.uv_angle(), 0);
}
