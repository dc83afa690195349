//! Parser of the initial-data resource: a `BODIES:` marker opens the
//! roster block, whose lines name one body each with an optional boolean
//! activity token, until a `DATE:` marker; the `DATE:` marker opens a
//! two-line block giving the nominal start and end years.

use vstd::prelude::*;

use crate::ephemeris::{Ephemeris, EphemerisView, SpaceObject, SpaceObjectView};
use crate::text::{
    bytes_eq, bytes_starts_with, is_ws, lines_of, parse_i32_tok, spec_lines, spec_parse_i32,
    spec_tokens, tokens_of,
};

verus! {

/// The roster-opening marker line `BODIES:`.
pub open spec fn spec_bodies_marker() -> Seq<u8> {
    seq![66u8, 79u8, 68u8, 73u8, 69u8, 83u8, 58u8]
}

/// The year-block marker line `DATE:`.
pub open spec fn spec_date_marker() -> Seq<u8> {
    seq![68u8, 65u8, 84u8, 69u8, 58u8]
}

/// The `Start_year` line prefix.
pub open spec fn spec_start_year_marker() -> Seq<u8> {
    seq![83u8, 116u8, 97u8, 114u8, 116u8, 95u8, 121u8, 101u8, 97u8, 114u8]
}

/// The `End_year` line prefix.
pub open spec fn spec_end_year_marker() -> Seq<u8> {
    seq![69u8, 110u8, 100u8, 95u8, 121u8, 101u8, 97u8, 114u8]
}

/// The boolean token `true`; any other token reads as inactive.
pub open spec fn spec_true_token() -> Seq<u8> {
    seq![116u8, 114u8, 117u8, 101u8]
}

/// Whether `l` begins with the prefix `p`.
pub open spec fn spec_prefixed(l: Seq<u8>, p: Seq<u8>) -> bool {
    p.len() <= l.len() && l.subrange(0, p.len() as int) == p
}

/// What the roster scan accumulates: bodies in file order and the two
/// nominal years.
pub struct InitScan {
    pub bodies: Seq<SpaceObjectView>,
    pub start_year: int,
    pub end_year: int,
}

/// The body a roster line describes: first token the name, active
/// exactly when a second token reads `true`.
pub open spec fn spec_body_entry(line: Seq<u8>) -> SpaceObjectView {
    let toks = spec_tokens(line);
    SpaceObjectView {
        name: toks[0],
        active: toks.len() > 1 && toks[1] == spec_true_token(),
        pointer: Seq::<int>::empty(),
        block_length: 0,
    }
}

/// A year line contributes its last token's integer value when it bears
/// the expected prefix; otherwise the previous value stands.
pub open spec fn spec_year_line(line: Seq<u8>, marker: Seq<u8>, prev: int) -> int {
    if spec_prefixed(line, marker) {
        spec_parse_i32(spec_tokens(line).last())
    } else {
        prev
    }
}

/// Effect of the two-line year block opened by a `DATE:` marker at `i`.
pub open spec fn spec_year_block(lines: Seq<Seq<u8>>, i: int, st: InitScan) -> InitScan {
    let sy = if i + 1 < lines.len() {
        spec_year_line(lines[i + 1], spec_start_year_marker(), st.start_year)
    } else {
        st.start_year
    };
    let ey = if i + 2 < lines.len() {
        spec_year_line(lines[i + 2], spec_end_year_marker(), st.end_year)
    } else {
        st.end_year
    };
    InitScan { bodies: st.bodies, start_year: sy, end_year: ey }
}

/// First line after the year block opened at `i`.
pub open spec fn spec_year_block_end(lines_len: int, i: int) -> int {
    if i + 3 <= lines_len {
        i + 3
    } else {
        lines_len
    }
}

/// The line scan of the initial-data grammar, from line `i` in mode
/// `in_bodies`, over the accumulated state `st`.
pub open spec fn spec_init_scan(
    lines: Seq<Seq<u8>>,
    i: int,
    in_bodies: bool,
    st: InitScan,
) -> InitScan
    decreases lines.len() - i,
{
    if i < 0 || i >= lines.len() {
        st
    } else {
        let line = lines[i];
        if line == spec_date_marker() {
            spec_init_scan(
                lines,
                spec_year_block_end(lines.len() as int, i),
                false,
                spec_year_block(lines, i, st),
            )
        } else if in_bodies {
            let st2 = if spec_tokens(line).len() > 0 {
                InitScan {
                    bodies: st.bodies.push(spec_body_entry(line)),
                    start_year: st.start_year,
                    end_year: st.end_year,
                }
            } else {
                st
            };
            spec_init_scan(lines, i + 1, true, st2)
        } else if line == spec_bodies_marker() {
            spec_init_scan(lines, i + 1, true, st)
        } else {
            spec_init_scan(lines, i + 1, false, st)
        }
    }
}

/// The whole effect of the initial-data resource on a descriptor:
/// bodies appended in file order, years overwritten where their lines
/// parse, everything else untouched.
pub open spec fn spec_read_init(v: EphemerisView, data: Seq<u8>) -> EphemerisView {
    let st = spec_init_scan(
        spec_lines(data),
        0,
        false,
        (InitScan { bodies: v.bodies, start_year: v.start_year, end_year: v.end_year }),
    );
    EphemerisView {
        bodies: st.bodies,
        start_year: st.start_year,
        end_year: st.end_year,
        ncoeff: v.ncoeff,
        emrat_literal: v.emrat_literal,
        interval: v.interval,
        julian_start: v.julian_start,
        julian_end: v.julian_end,
    }
}

/// The roster scan only appends bodies without pointer data, so every
/// pointer integer stays in 32-bit range.
pub proof fn lemma_init_scan_bounded(lines: Seq<Seq<u8>>, i: int, in_bodies: bool, st: InitScan)
    requires
        crate::layout::spec_bodies_bounded(st.bodies),
    ensures
        crate::layout::spec_bodies_bounded(spec_init_scan(lines, i, in_bodies, st).bodies),
    decreases lines.len() - i,
{
    if 0 <= i < lines.len() {
        let line = lines[i];
        if line == spec_date_marker() {
            lemma_init_scan_bounded(
                lines,
                spec_year_block_end(lines.len() as int, i),
                false,
                spec_year_block(lines, i, st),
            );
        } else if in_bodies {
            let st2 = if spec_tokens(line).len() > 0 {
                InitScan {
                    bodies: st.bodies.push(spec_body_entry(line)),
                    start_year: st.start_year,
                    end_year: st.end_year,
                }
            } else {
                st
            };
            assert(crate::layout::spec_bodies_bounded(st2.bodies));
            lemma_init_scan_bounded(lines, i + 1, true, st2);
        } else if line == spec_bodies_marker() {
            lemma_init_scan_bounded(lines, i + 1, true, st);
        } else {
            lemma_init_scan_bounded(lines, i + 1, false, st);
        }
    }
}

impl Ephemeris {
    /// Scan the initial-data resource: append its roster to the body
    /// list and take the nominal year range from its `DATE:` block.
    pub fn read_init_data(&mut self, data: &[u8])
        ensures
            final(self)@ == spec_read_init(old(self)@, data@),
            final(self).config == old(self).config,
    {
        let lines = lines_of(data);
        let ghost glines = spec_lines(data@);
        let bodies_marker: [u8; 7] = [66, 79, 68, 73, 69, 83, 58];
        let date_marker: [u8; 5] = [68, 65, 84, 69, 58];
        let start_marker: [u8; 10] = [83, 116, 97, 114, 116, 95, 121, 101, 97, 114];
        let end_marker: [u8; 8] = [69, 110, 100, 95, 121, 101, 97, 114];
        let true_tok: [u8; 4] = [116, 114, 117, 101];
        proof {
            assert(bodies_marker@ =~= spec_bodies_marker());
            assert(date_marker@ =~= spec_date_marker());
            assert(start_marker@ =~= spec_start_year_marker());
            assert(end_marker@ =~= spec_end_year_marker());
            assert(true_tok@ =~= spec_true_token());
        }
        let ghost st0 = InitScan {
            bodies: old(self)@.bodies,
            start_year: old(self)@.start_year,
            end_year: old(self)@.end_year,
        };
        let mut new_bodies: Vec<SpaceObject> = Vec::new();
        let mut sy: i64 = self.start_year;
        let mut ey: i64 = self.end_year;
        let mut in_bodies: bool = false;
        let mut i: usize = 0;
        while i < lines.len()
            invariant
                i <= lines@.len(),
                lines@.map_values(|l: Vec<u8>| l@) == glines,
                glines == spec_lines(data@),
                bodies_marker@ == spec_bodies_marker(),
                date_marker@ == spec_date_marker(),
                start_marker@ == spec_start_year_marker(),
                end_marker@ == spec_end_year_marker(),
                true_tok@ == spec_true_token(),
                *self == *old(self),
                spec_init_scan(glines, 0, false, st0) == spec_init_scan(
                    glines,
                    i as int,
                    in_bodies,
                    (InitScan {
                        bodies: st0.bodies + new_bodies@.map_values(|b: SpaceObject| b@),
                        start_year: sy as int,
                        end_year: ey as int,
                    }),
                ),
                st0 == (InitScan {
                    bodies: old(self)@.bodies,
                    start_year: old(self)@.start_year,
                    end_year: old(self)@.end_year,
                }),
            decreases lines@.len() - i,
        {
            let ghost gline = glines[i as int];
            proof {
                assert(gline == lines@[i as int]@);
            }
            let is_date = bytes_eq(lines[i].as_slice(), date_marker.as_slice());
            if is_date {
                if lines.len() - i > 1 {
                    let l1 = &lines[i + 1];
                    if bytes_starts_with(l1.as_slice(), start_marker.as_slice()) {
                        let toks1 = tokens_of(l1.as_slice());
                        proof {
                            assert(l1@.subrange(0, 10)[0] == l1@[0]);
                            assert(l1@[0] == 83);
                            assert(!is_ws(l1@[0]));
                            assert(spec_tokens(l1@).len() > 0);
                        }
                        sy = parse_i32_tok(toks1[toks1.len() - 1].as_slice());
                        proof {
                            assert(toks1@.map_values(|t: Vec<u8>| t@)[toks1@.len() - 1] == toks1@[
                                toks1@.len() - 1]@);
                        }
                    }
                }
                if lines.len() - i > 2 {
                    let l2 = &lines[i + 2];
                    if bytes_starts_with(l2.as_slice(), end_marker.as_slice()) {
                        let toks2 = tokens_of(l2.as_slice());
                        proof {
                            assert(l2@.subrange(0, 8)[0] == l2@[0]);
                            assert(l2@[0] == 69);
                            assert(!is_ws(l2@[0]));
                            assert(spec_tokens(l2@).len() > 0);
                        }
                        ey = parse_i32_tok(toks2[toks2.len() - 1].as_slice());
                        proof {
                            assert(toks2@.map_values(|t: Vec<u8>| t@)[toks2@.len() - 1] == toks2@[
                                toks2@.len() - 1]@);
                        }
                    }
                }
                in_bodies = false;
                i = if lines.len() - i >= 3 {
                    i + 3
                } else {
                    lines.len()
                };
            } else if in_bodies {
                let toks = tokens_of(lines[i].as_slice());
                if toks.len() > 0 {
                    let ghost prev = new_bodies@.map_values(|b: SpaceObject| b@);
                    let name = crate::config::clone_bytes(&toks[0]);
                    let active = toks.len() > 1 && bytes_eq(toks[1].as_slice(), true_tok.as_slice());
                    proof {
                        assert(toks@.map_values(|t: Vec<u8>| t@)[0] == toks@[0]@);
                        if toks@.len() > 1 {
                            assert(toks@.map_values(|t: Vec<u8>| t@)[1] == toks@[1]@);
                        }
                    }
                    new_bodies.push(SpaceObject::new(name, active));
                    proof {
                        assert(new_bodies@.map_values(|b: SpaceObject| b@) =~= prev + seq![
                            spec_body_entry(gline)]);
                        assert(st0.bodies + new_bodies@.map_values(|b: SpaceObject| b@) =~= (
                        st0.bodies + prev).push(spec_body_entry(gline)));
                    }
                }
                i = i + 1;
            } else if bytes_eq(lines[i].as_slice(), bodies_marker.as_slice()) {
                in_bodies = true;
                i = i + 1;
            } else {
                i = i + 1;
            }
        }
        let ghost gnew = new_bodies@.map_values(|b: SpaceObject| b@);
        self.bodies.append(&mut new_bodies);
        self.start_year = sy;
        self.end_year = ey;
        proof {
            assert(self.bodies@.map_values(|b: SpaceObject| b@) =~= st0.bodies + gnew);
        }
    }
}

} // verus!
