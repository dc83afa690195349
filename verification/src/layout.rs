//! Derivation of the per-body coefficient-block lengths from the pointer
//! start offsets and the total coefficient count.

use vstd::prelude::*;

use crate::ephemeris::{Ephemeris, EphemerisView, SpaceObjectView};

verus! {

/// The 32-bit range every parsed header integer lies in.
pub open spec fn spec_in_i32(v: int) -> bool {
    -2_147_483_648 <= v <= 2_147_483_647
}

/// Every pointer integer of a roster is in 32-bit range.
pub open spec fn spec_bodies_bounded(bodies: Seq<SpaceObjectView>) -> bool {
    forall|x: int, j: int|
        0 <= x < bodies.len() && 0 <= j < bodies[x].pointer.len() ==> spec_in_i32(
            #[trigger] bodies[x].pointer[j],
        )
}

/// Every pointer integer and the coefficient count are in 32-bit range,
/// as the header parse guarantees; block-length arithmetic then cannot
/// overflow.
pub open spec fn spec_eph_bounded(v: EphemerisView) -> bool {
    &&& spec_in_i32(v.ncoeff)
    &&& spec_bodies_bounded(v.bodies)
}

/// The block length body `x` receives: the distance from its start
/// offset to the next body's, and for the last body to the total count;
/// a body without pointer data, or whose successor has none, keeps its
/// previous value.
pub open spec fn spec_block_length(bodies: Seq<SpaceObjectView>, ncoeff: int, x: int) -> int {
    let b = bodies[x];
    if x < bodies.len() - 1 {
        if b.pointer.len() > 0 && bodies[x + 1].pointer.len() > 0 {
            bodies[x + 1].pointer[0] - b.pointer[0]
        } else {
            b.block_length
        }
    } else if b.pointer.len() > 0 {
        ncoeff - b.pointer[0]
    } else {
        b.block_length
    }
}

impl Ephemeris {
    /// Fill every body's coefficient-block length from the pointer start
    /// offsets and the total coefficient count; on an empty roster this
    /// is a no-op.
    pub fn calculate_coefficient_lengths(&mut self)
        requires
            spec_eph_bounded(old(self)@),
        ensures
            final(self)@.bodies.len() == old(self)@.bodies.len(),
            forall|x: int|
                0 <= x < old(self)@.bodies.len() ==> {
                    &&& (#[trigger] final(self)@.bodies[x]).block_length == spec_block_length(
                        old(self)@.bodies,
                        old(self)@.ncoeff,
                        x,
                    )
                    &&& final(self)@.bodies[x].name == old(self)@.bodies[x].name
                    &&& final(self)@.bodies[x].active == old(self)@.bodies[x].active
                    &&& final(self)@.bodies[x].pointer == old(self)@.bodies[x].pointer
                },
            final(self)@.start_year == old(self)@.start_year,
            final(self)@.end_year == old(self)@.end_year,
            final(self)@.ncoeff == old(self)@.ncoeff,
            final(self)@.emrat_literal == old(self)@.emrat_literal,
            final(self)@.interval == old(self)@.interval,
            final(self)@.julian_start == old(self)@.julian_start,
            final(self)@.julian_end == old(self)@.julian_end,
            final(self).config == old(self).config,
    {
        let mut bodies: Vec<crate::ephemeris::SpaceObject> = Vec::new();
        core::mem::swap(&mut bodies, &mut self.bodies);
        let n = bodies.len();
        if n > 0 {
            let mut x: usize = 0;
            while x < n - 1
                invariant
                    1 <= n == bodies@.len(),
                    x <= n - 1,
                    n == old(self)@.bodies.len(),
                    spec_eph_bounded(old(self)@),
                    forall|y: int|
                        x <= y < n ==> (#[trigger] bodies@[y])@ == old(self)@.bodies[y],
                    forall|y: int|
                        0 <= y < x ==> {
                            &&& (#[trigger] bodies@[y])@.block_length == spec_block_length(
                                old(self)@.bodies,
                                old(self)@.ncoeff,
                                y,
                            )
                            &&& bodies@[y]@.name == old(self)@.bodies[y].name
                            &&& bodies@[y]@.active == old(self)@.bodies[y].active
                            &&& bodies@[y]@.pointer == old(self)@.bodies[y].pointer
                        },
                decreases n - 1 - x,
            {
                if bodies[x].header_data.len() > 0 && bodies[x + 1].header_data.len() > 0 {
                    proof {
                        assert(old(self)@.bodies[x as int].pointer[0] == bodies@[
                        x as int].header_data@.map_values(|p: i64| p as int)[0]);
                        assert(old(self)@.bodies[x as int + 1].pointer[0] == bodies@[x as int
                            + 1].header_data@.map_values(|p: i64| p as int)[0]);
                    }
                    let v: i64 = bodies[x + 1].header_data[0] - bodies[x].header_data[0];
                    bodies[x].coefficient_length = v;
                }
                x = x + 1;
            }
            if bodies[n - 1].header_data.len() > 0 {
                proof {
                    assert(old(self)@.bodies[n as int - 1].pointer[0] == bodies@[n as int
                        - 1].header_data@.map_values(|p: i64| p as int)[0]);
                }
                let v: i64 = self.ncoeff - bodies[n - 1].header_data[0];
                bodies[n - 1].coefficient_length = v;
            }
        }
        self.bodies = bodies;
    }
}

} // verus!
