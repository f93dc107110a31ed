//! The per-strength deblocking thresholds.
//!
//! For every filter level `L` in `0..64` the bitstream's sharpness setting
//! determines a limit `I` and an edge threshold `E = 2 * (L + 2) + I`; the
//! high-variance threshold is always `H = L >> 4`.  The table is produced
//! once per frame header and consumed read-only by the loop filter engine.

use vstd::prelude::*;

verus! {

pub struct Av1FilterLUT {
    /// Edge threshold per level, `e[L] == 2 * (L + 2) + i[L]`.
    pub e: Vec<u8>,
    /// Delta limit per level.
    pub i: Vec<u8>,
    /// The two sharpness-derived values kept alongside the table.
    pub sharp0: u8,
    pub sharp1: u8,
}

/// The canonical limit `I` for sharpness `sharp` and level `l`:
/// the level, attenuated for positive sharpness and never below 1.
pub open spec fn spec_limit(sharp: int, l: int) -> int {
    let attenuated = if sharp > 0 {
        let shifted = if sharp >= 5 {
            l / 4
        } else {
            l / 2
        };
        if shifted > 9 - sharp {
            9 - sharp
        } else {
            shifted
        }
    } else {
        l
    };
    if attenuated < 1 {
        1
    } else {
        attenuated
    }
}

/// The canonical edge threshold `E` for sharpness `sharp` and level `l`.
pub open spec fn spec_edge_threshold(sharp: int, l: int) -> int {
    2 * (l + 2) + spec_limit(sharp, l)
}

impl Av1FilterLUT {
    pub open spec fn wf(self) -> bool {
        &&& self.e.len() == 64
        &&& self.i.len() == 64
    }

    /// Both thresholds match the canonical tables for every level.
    pub open spec fn canonical(self, sharp: int) -> bool {
        &&& self.wf()
        &&& forall|l: int| 0 <= l < 64 ==> self.i@[l] == spec_limit(sharp, l)
        &&& forall|l: int| 0 <= l < 64 ==> self.e@[l] == spec_edge_threshold(sharp, l)
    }

    /// Build the canonical threshold table for a sharpness in `0..=7`.
    pub fn new(sharp: u8) -> (r: Av1FilterLUT)
        requires
            sharp <= 7,
        ensures
            r.canonical(sharp as int),
            r.sharp0 == (sharp + 3) / 4,
            r.sharp1 == if sharp > 0 {
                9 - sharp
            } else {
                0xff
            },
    {
        let mut e: Vec<u8> = Vec::new();
        let mut i: Vec<u8> = Vec::new();
        let mut l: usize = 0;
        while l < 64
            invariant
                sharp <= 7,
                e.len() == l,
                i.len() == l,
                l <= 64,
                forall|k: int| 0 <= k < l ==> i@[k] == spec_limit(sharp as int, k),
                forall|k: int| 0 <= k < l ==> e@[k] == spec_edge_threshold(sharp as int, k),
            decreases 64 - l,
        {
            let mut limit: u8 = l as u8;
            if sharp > 0 {
                if sharp >= 5 {
                    limit = limit / 4;
                } else {
                    limit = limit / 2;
                }
                if limit > 9 - sharp {
                    limit = 9 - sharp;
                }
            }
            if limit < 1 {
                limit = 1;
            }
            i.push(limit);
            e.push(2 * (l as u8 + 2) + limit);
            l += 1;
        }
        Av1FilterLUT {
            e,
            i,
            sharp0: (sharp + 3) / 4,
            sharp1: if sharp > 0 {
                9 - sharp
            } else {
                0xff
            },
        }
    }
}

} // verus!
