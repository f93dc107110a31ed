//! Block-level metadata consumed by the filtering stage: motion vectors and
//! the per-block mode record whose fields select filter behaviour.

#![allow(non_camel_case_types)]

use vstd::prelude::*;

verus! {

/// A motion vector in quarter-pel units.
#[derive(Clone, Copy, PartialEq, Eq, Structural, Debug)]
pub struct mv {
    pub y: i16,
    pub x: i16,
}

impl mv {
    /// The all-zero motion vector.
    pub fn zero() -> (r: mv)
        ensures
            r.y == 0 && r.x == 0,
    {
        mv { y: 0, x: 0 }
    }

    /// The sentinel that marks an invalid motion vector.
    pub fn invalid() -> (r: mv)
        ensures
            r.y == i16::MIN && r.x == i16::MIN,
    {
        mv { y: i16::MIN, x: i16::MIN }
    }

    pub open spec fn spec_is_invalid(self) -> bool {
        self.y == i16::MIN && self.x == i16::MIN
    }

    pub fn is_invalid(self) -> (r: bool)
        ensures
            r == self.spec_is_invalid(),
    {
        self.y == i16::MIN && self.x == i16::MIN
    }

    pub fn is_valid(self) -> (r: bool)
        ensures
            r == !self.spec_is_invalid(),
    {
        !self.is_invalid()
    }

    /// Negate both components; the sentinel and the extreme negative values
    /// have no positive counterpart, so they are excluded.
    pub fn neg(self) -> (r: mv)
        requires
            self.y != i16::MIN,
            self.x != i16::MIN,
        ensures
            r.y == -self.y as int,
            r.x == -self.x as int,
    {
        mv { y: -self.y, x: -self.x }
    }
}

impl Default for mv {
    fn default() -> (r: mv)
        ensures
            r.y == 0 && r.x == 0,
    {
        mv { y: 0, x: 0 }
    }
}

/// Mode data of an intra-coded block.
#[derive(Clone, Copy)]
pub struct Av1Block_intra {
    pub y_mode: u8,
    pub uv_mode: u8,
    pub tx: u8,
    pub pal_sz: [u8; 2],
    pub y_angle: i8,
    pub uv_angle: i8,
    pub cfl_alpha: [i8; 2],
}

impl Default for Av1Block_intra {
    fn default() -> (r: Av1Block_intra)
        ensures
            r.y_mode == 0,
            r.uv_mode == 0,
            r.tx == 0,
            r.pal_sz[0] == 0 && r.pal_sz[1] == 0,
            r.y_angle == 0,
            r.uv_angle == 0,
            r.cfl_alpha[0] == 0 && r.cfl_alpha[1] == 0,
    {
        Av1Block_intra {
            y_mode: 0,
            uv_mode: 0,
            tx: 0,
            pal_sz: [0, 0],
            y_angle: 0,
            uv_angle: 0,
            cfl_alpha: [0, 0],
        }
    }
}

/// Translational inter-prediction data: up to two motion vectors plus the
/// wedge / inter-intra selection fields.
#[derive(Clone, Copy)]
pub struct Av1Block_inter_1d {
    pub mv: [mv; 2],
    pub wedge_idx: u8,
    pub mask_sign: u8,
    pub interintra_mode: u8,
}

/// Warped-motion inter-prediction data: one motion vector and an affine
/// matrix.
#[derive(Clone, Copy)]
pub struct Av1Block_inter_2d {
    pub mv2d: mv,
    pub matrix: [i16; 4],
}

/// The two inter-prediction payloads; exactly one applies to a block.
#[derive(Clone, Copy)]
pub enum Av1BlockInterKind {
    OneD(Av1Block_inter_1d),
    TwoD(Av1Block_inter_2d),
}

/// Mode data of an inter-coded block.
#[derive(Clone, Copy)]
pub struct Av1Block_inter {
    pub kind: Av1BlockInterKind,
    pub comp_type: u8,
    pub inter_mode: u8,
    pub motion_mode: u8,
    pub drl_idx: u8,
    pub refs: [i8; 2],
    pub max_ytx: u8,
    pub filter2d: u8,
    pub interintra_type: u8,
    pub tx_split0: u8,
    pub tx_split1: u16,
}

/// The intra or inter payload of a block record.
#[derive(Clone, Copy)]
pub enum Av1BlockKind {
    Intra(Av1Block_intra),
    Inter(Av1Block_inter),
}

/// A decoded block record, as handed to the filtering stage by block-mode
/// decode.
#[derive(Clone, Copy)]
pub struct Av1Block {
    pub bl: u8,
    pub bs: u8,
    pub bp: u8,
    pub intra: u8,
    pub seg_id: u8,
    pub skip_mode: u8,
    pub skip: u8,
    pub uvtx: u8,
    pub kind: Av1BlockKind,
}

impl Av1Block {
    pub open spec fn spec_intra(self) -> Option<Av1Block_intra> {
        match self.kind {
            Av1BlockKind::Intra(b) => Some(b),
            Av1BlockKind::Inter(_) => None,
        }
    }

    pub open spec fn spec_inter(self) -> Option<Av1Block_inter> {
        match self.kind {
            Av1BlockKind::Intra(_) => None,
            Av1BlockKind::Inter(b) => Some(b),
        }
    }

    pub open spec fn spec_inter_1d(self) -> Option<Av1Block_inter_1d> {
        match self.spec_inter() {
            Some(b) => match b.kind {
                Av1BlockInterKind::OneD(d) => Some(d),
                Av1BlockInterKind::TwoD(_) => None,
            },
            None => None,
        }
    }

    pub open spec fn spec_inter_2d(self) -> Option<Av1Block_inter_2d> {
        match self.spec_inter() {
            Some(b) => match b.kind {
                Av1BlockInterKind::OneD(_) => None,
                Av1BlockInterKind::TwoD(d) => Some(d),
            },
            None => None,
        }
    }

    pub fn cfl_alpha(&self) -> (r: [i8; 2])
        requires
            self.spec_intra() is Some,
        ensures
            r == self.spec_intra()->Some_0.cfl_alpha,
    {
        match &self.kind {
            Av1BlockKind::Intra(b) => b.cfl_alpha,
            Av1BlockKind::Inter(_) => unreached(),
        }
    }

    pub fn pal_sz(&self) -> (r: [u8; 2])
        requires
            self.spec_intra() is Some,
        ensures
            r == self.spec_intra()->Some_0.pal_sz,
    {
        match &self.kind {
            Av1BlockKind::Intra(b) => b.pal_sz,
            Av1BlockKind::Inter(_) => unreached(),
        }
    }

    pub fn tx(&self) -> (r: u8)
        requires
            self.spec_intra() is Some,
        ensures
            r == self.spec_intra()->Some_0.tx,
    {
        match &self.kind {
            Av1BlockKind::Intra(b) => b.tx,
            Av1BlockKind::Inter(_) => unreached(),
        }
    }

    pub fn y_mode(&self) -> (r: u8)
        requires
            self.spec_intra() is Some,
        ensures
            r == self.spec_intra()->Some_0.y_mode,
    {
        match &self.kind {
            Av1BlockKind::Intra(b) => b.y_mode,
            Av1BlockKind::Inter(_) => unreached(),
        }
    }

    pub fn uv_mode(&self) -> (r: u8)
        requires
            self.spec_intra() is Some,
        ensures
            r == self.spec_intra()->Some_0.uv_mode,
    {
        match &self.kind {
            Av1BlockKind::Intra(b) => b.uv_mode,
            Av1BlockKind::Inter(_) => unreached(),
        }
    }

    pub fn y_angle(&self) -> (r: i8)
        requires
            self.spec_intra() is Some,
        ensures
            r == self.spec_intra()->Some_0.y_angle,
    {
        match &self.kind {
            Av1BlockKind::Intra(b) => b.y_angle,
            Av1BlockKind::Inter(_) => unreached(),
        }
    }

    pub fn uv_angle(&self) -> (r: i8)
        requires
            self.spec_intra() is Some,
        ensures
            r == self.spec_intra()->Some_0.uv_angle,
    {
        match &self.kind {
            Av1BlockKind::Intra(b) => b.uv_angle,
            Av1BlockKind::Inter(_) => unreached(),
        }
    }

    pub fn comp_type(&self) -> (r: u8)
        requires
            self.spec_inter() is Some,
        ensures
            r == self.spec_inter()->Some_0.comp_type,
    {
        match &self.kind {
            Av1BlockKind::Inter(b) => b.comp_type,
            Av1BlockKind::Intra(_) => unreached(),
        }
    }

    pub fn inter_mode(&self) -> (r: u8)
        requires
            self.spec_inter() is Some,
        ensures
            r == self.spec_inter()->Some_0.inter_mode,
    {
        match &self.kind {
            Av1BlockKind::Inter(b) => b.inter_mode,
            Av1BlockKind::Intra(_) => unreached(),
        }
    }

    pub fn motion_mode(&self) -> (r: u8)
        requires
            self.spec_inter() is Some,
        ensures
            r == self.spec_inter()->Some_0.motion_mode,
    {
        match &self.kind {
            Av1BlockKind::Inter(b) => b.motion_mode,
            Av1BlockKind::Intra(_) => unreached(),
        }
    }

    pub fn drl_idx(&self) -> (r: u8)
        requires
            self.spec_inter() is Some,
        ensures
            r == self.spec_inter()->Some_0.drl_idx,
    {
        match &self.kind {
            Av1BlockKind::Inter(b) => b.drl_idx,
            Av1BlockKind::Intra(_) => unreached(),
        }
    }

    pub fn refs(&self) -> (r: [i8; 2])
        requires
            self.spec_inter() is Some,
        ensures
            r == self.spec_inter()->Some_0.refs,
    {
        match &self.kind {
            Av1BlockKind::Inter(b) => b.refs,
            Av1BlockKind::Intra(_) => unreached(),
        }
    }

    pub fn max_ytx(&self) -> (r: u8)
        requires
            self.spec_inter() is Some,
        ensures
            r == self.spec_inter()->Some_0.max_ytx,
    {
        match &self.kind {
            Av1BlockKind::Inter(b) => b.max_ytx,
            Av1BlockKind::Intra(_) => unreached(),
        }
    }

    pub fn filter2d(&self) -> (r: u8)
        requires
            self.spec_inter() is Some,
        ensures
            r == self.spec_inter()->Some_0.filter2d,
    {
        match &self.kind {
            Av1BlockKind::Inter(b) => b.filter2d,
            Av1BlockKind::Intra(_) => unreached(),
        }
    }

    pub fn interintra_type(&self) -> (r: u8)
        requires
            self.spec_inter() is Some,
        ensures
            r == self.spec_inter()->Some_0.interintra_type,
    {
        match &self.kind {
            Av1BlockKind::Inter(b) => b.interintra_type,
            Av1BlockKind::Intra(_) => unreached(),
        }
    }

    pub fn tx_split0(&self) -> (r: u8)
        requires
            self.spec_inter() is Some,
        ensures
            r == self.spec_inter()->Some_0.tx_split0,
    {
        match &self.kind {
            Av1BlockKind::Inter(b) => b.tx_split0,
            Av1BlockKind::Intra(_) => unreached(),
        }
    }

    pub fn tx_split1(&self) -> (r: u16)
        requires
            self.spec_inter() is Some,
        ensures
            r == self.spec_inter()->Some_0.tx_split1,
    {
        match &self.kind {
            Av1BlockKind::Inter(b) => b.tx_split1,
            Av1BlockKind::Intra(_) => unreached(),
        }
    }

    pub fn mvs(&self) -> (r: [mv; 2])
        requires
            self.spec_inter_1d() is Some,
        ensures
            r == self.spec_inter_1d()->Some_0.mv,
    {
        match &self.kind {
            Av1BlockKind::Inter(b) => match &b.kind {
                Av1BlockInterKind::OneD(d) => d.mv,
                Av1BlockInterKind::TwoD(_) => unreached(),
            },
            Av1BlockKind::Intra(_) => unreached(),
        }
    }

    pub fn wedge_idx(&self) -> (r: u8)
        requires
            self.spec_inter_1d() is Some,
        ensures
            r == self.spec_inter_1d()->Some_0.wedge_idx,
    {
        match &self.kind {
            Av1BlockKind::Inter(b) => match &b.kind {
                Av1BlockInterKind::OneD(d) => d.wedge_idx,
                Av1BlockInterKind::TwoD(_) => unreached(),
            },
            Av1BlockKind::Intra(_) => unreached(),
        }
    }

    pub fn mask_sign(&self) -> (r: u8)
        requires
            self.spec_inter_1d() is Some,
        ensures
            r == self.spec_inter_1d()->Some_0.mask_sign,
    {
        match &self.kind {
            Av1BlockKind::Inter(b) => match &b.kind {
                Av1BlockInterKind::OneD(d) => d.mask_sign,
                Av1BlockInterKind::TwoD(_) => unreached(),
            },
            Av1BlockKind::Intra(_) => unreached(),
        }
    }

    pub fn interintra_mode(&self) -> (r: u8)
        requires
            self.spec_inter_1d() is Some,
        ensures
            r == self.spec_inter_1d()->Some_0.interintra_mode,
    {
        match &self.kind {
            Av1BlockKind::Inter(b) => match &b.kind {
                Av1BlockInterKind::OneD(d) => d.interintra_mode,
                Av1BlockInterKind::TwoD(_) => unreached(),
            },
            Av1BlockKind::Intra(_) => unreached(),
        }
    }

    pub fn mv2d(&self) -> (r: mv)
        requires
            self.spec_inter_2d() is Some,
        ensures
            r == self.spec_inter_2d()->Some_0.mv2d,
    {
        match &self.kind {
            Av1BlockKind::Inter(b) => match &b.kind {
                Av1BlockInterKind::TwoD(d) => d.mv2d,
                Av1BlockInterKind::OneD(_) => unreached(),
            },
            Av1BlockKind::Intra(_) => unreached(),
        }
    }

    pub fn matrix(&self) -> (r: [i16; 4])
        requires
            self.spec_inter_2d() is Some,
        ensures
            r == self.spec_inter_2d()->Some_0.matrix,
    {
        match &self.kind {
            Av1BlockKind::Inter(b) => match &b.kind {
                Av1BlockInterKind::TwoD(d) => d.matrix,
                Av1BlockInterKind::OneD(_) => unreached(),
            },
            Av1BlockKind::Intra(_) => unreached(),
        }
    }
}

impl Default for Av1Block {
    fn default() -> (r: Av1Block)
        ensures
            r.bl == 0,
            r.bs == 0,
            r.bp == 0,
            r.intra == 0,
            r.seg_id == 0,
            r.skip_mode == 0,
            r.skip == 0,
            r.uvtx == 0,
            r.spec_intra() is Some,
    {
        Av1Block {
            bl: 0,
            bs: 0,
            bp: 0,
            intra: 0,
            seg_id: 0,
            skip_mode: 0,
            skip: 0,
            uvtx: 0,
            kind: Av1BlockKind::Intra(Default::default()),
        }
    }
}

} // verus!
