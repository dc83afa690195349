//! Parser of the header resource: whitespace-tokenized record lines,
//! each line keyed by its first token. `NCOEFF=` carries the total
//! coefficient count; `GROUP` opens a coded record: `1030` the Julian
//! span and interval, `1040` the constant-name table locating `EMRAT`,
//! `1041` the constant values (where the mass-ratio literal undergoes
//! the FORTRAN exponent repair), `1050` the per-body pointer columns.

use vstd::prelude::*;

use crate::ephemeris::{Ephemeris, SpaceObjectView};
use crate::text::{
    bytes_eq, parse_day_micros_tok, parse_i32_tok, repair_exponent, spec_lines,
    spec_parse_day_micros, spec_parse_i32, spec_repair_exponent, spec_tokens, tokens_of,
    lines_of, EXPONENT_FIELD_WIDTH,
};

verus! {

/// The key token `NCOEFF=`.
pub open spec fn spec_ncoeff_key() -> Seq<u8> {
    seq![78u8, 67u8, 79u8, 69u8, 70u8, 70u8, 61u8]
}

/// The key token `GROUP`.
pub open spec fn spec_group_key() -> Seq<u8> {
    seq![71u8, 82u8, 79u8, 85u8, 80u8]
}

/// Group code `1030`: Julian span and interval.
pub open spec fn spec_code_1030() -> Seq<u8> {
    seq![49u8, 48u8, 51u8, 48u8]
}

/// Group code `1040`: constant-name table.
pub open spec fn spec_code_1040() -> Seq<u8> {
    seq![49u8, 48u8, 52u8, 48u8]
}

/// Group code `1041`: constant values.
pub open spec fn spec_code_1041() -> Seq<u8> {
    seq![49u8, 48u8, 52u8, 49u8]
}

/// Group code `1050`: pointer columns.
pub open spec fn spec_code_1050() -> Seq<u8> {
    seq![49u8, 48u8, 53u8, 48u8]
}

/// The constant name `EMRAT`.
pub open spec fn spec_emrat_name() -> Seq<u8> {
    seq![69u8, 77u8, 82u8, 65u8, 84u8]
}

/// What the header scan accumulates.
pub struct HeaderScan {
    pub ncoeff: int,
    pub julian_start: int,
    pub julian_end: int,
    pub interval: int,
    /// Zero-based ordinal of `EMRAT` among the constant names, as last
    /// recorded by a `1040` record.
    pub emrat_ordinal: int,
    pub emrat_literal: Seq<u8>,
    /// Pointer integers accumulated per body, in roster order.
    pub pointers: Seq<Seq<int>>,
}

/// The pointer columns of a roster.
pub open spec fn spec_pointers_of(bodies: Seq<SpaceObjectView>) -> Seq<Seq<int>> {
    bodies.map_values(|b: SpaceObjectView| b.pointer)
}

/// Ordinal of the first of `n` scanned tokens (starting at `base`)
/// equal to `EMRAT`; `prev` when the scan runs out of tokens or count.
pub open spec fn spec_find_emrat(toks: Seq<Seq<u8>>, base: int, n: int, k: int, prev: int) -> int
    decreases n - k,
{
    if k >= n {
        prev
    } else if base + k >= toks.len() {
        prev
    } else if toks[base + k] == spec_emrat_name() {
        k
    } else {
        spec_find_emrat(toks, base, n, k + 1, prev)
    }
}

/// The single pointer value a token at `idx` contributes, if present.
pub open spec fn spec_ptr_opt(toks: Seq<Seq<u8>>, idx: int) -> Seq<int> {
    if 0 <= idx < toks.len() {
        seq![spec_parse_i32(toks[idx])]
    } else {
        Seq::<int>::empty()
    }
}

/// What a `1050` record appends to body `b` of `nb` bodies: one token
/// per pass, three passes, pass-major over the roster.
pub open spec fn spec_row_append(toks: Seq<Seq<u8>>, ptrs: Seq<Seq<int>>, b: int) -> Seq<int> {
    let nb = ptrs.len() as int;
    ptrs[b] + spec_ptr_opt(toks, 2 + b) + spec_ptr_opt(toks, 2 + nb + b) + spec_ptr_opt(
        toks,
        2 + 2 * nb + b,
    )
}

/// Effect of a `1050` record on all pointer columns.
pub open spec fn spec_group_1050(toks: Seq<Seq<u8>>, ptrs: Seq<Seq<int>>) -> Seq<Seq<int>> {
    Seq::new(ptrs.len(), |b: int| spec_row_append(toks, ptrs, b))
}

/// Effect of one header line on the scan state.
pub open spec fn spec_header_line(line: Seq<u8>, st: HeaderScan) -> HeaderScan {
    let toks = spec_tokens(line);
    if toks.len() == 0 {
        st
    } else if toks[0] == spec_ncoeff_key() {
        HeaderScan {
            ncoeff: if toks.len() > 1 {
                spec_parse_i32(toks[1])
            } else {
                0
            },
            julian_start: st.julian_start,
            julian_end: st.julian_end,
            interval: st.interval,
            emrat_ordinal: st.emrat_ordinal,
            emrat_literal: st.emrat_literal,
            pointers: st.pointers,
        }
    } else if toks[0] == spec_group_key() && toks.len() > 1 {
        if toks[1] == spec_code_1030() {
            HeaderScan {
                ncoeff: st.ncoeff,
                julian_start: if toks.len() > 2 {
                    spec_parse_day_micros(toks[2])
                } else {
                    st.julian_start
                },
                julian_end: if toks.len() > 3 {
                    spec_parse_day_micros(toks[3])
                } else {
                    st.julian_end
                },
                interval: if toks.len() > 4 {
                    spec_parse_i32(toks[4])
                } else {
                    st.interval
                },
                emrat_ordinal: st.emrat_ordinal,
                emrat_literal: st.emrat_literal,
                pointers: st.pointers,
            }
        } else if toks[1] == spec_code_1040() {
            HeaderScan {
                ncoeff: st.ncoeff,
                julian_start: st.julian_start,
                julian_end: st.julian_end,
                interval: st.interval,
                emrat_ordinal: if toks.len() > 2 {
                    spec_find_emrat(toks, 3, spec_parse_i32(toks[2]), 0, st.emrat_ordinal)
                } else {
                    st.emrat_ordinal
                },
                emrat_literal: st.emrat_literal,
                pointers: st.pointers,
            }
        } else if toks[1] == spec_code_1041() {
            HeaderScan {
                ncoeff: st.ncoeff,
                julian_start: st.julian_start,
                julian_end: st.julian_end,
                interval: st.interval,
                emrat_ordinal: st.emrat_ordinal,
                emrat_literal: if 2 + st.emrat_ordinal < toks.len() && toks[2
                    + st.emrat_ordinal].len() >= EXPONENT_FIELD_WIDTH {
                    spec_repair_exponent(toks[2 + st.emrat_ordinal])
                } else {
                    st.emrat_literal
                },
                pointers: st.pointers,
            }
        } else if toks[1] == spec_code_1050() {
            HeaderScan {
                ncoeff: st.ncoeff,
                julian_start: st.julian_start,
                julian_end: st.julian_end,
                interval: st.interval,
                emrat_ordinal: st.emrat_ordinal,
                emrat_literal: st.emrat_literal,
                pointers: spec_group_1050(toks, st.pointers),
            }
        } else {
            st
        }
    } else {
        st
    }
}

/// The line scan of the header grammar from line `i` on.
pub open spec fn spec_header_scan(lines: Seq<Seq<u8>>, i: int, st: HeaderScan) -> HeaderScan
    decreases lines.len() - i,
{
    if i < 0 || i >= lines.len() {
        st
    } else {
        spec_header_scan(lines, i + 1, spec_header_line(lines[i], st))
    }
}

/// The scan state a descriptor starts a header read in: its current
/// constants, a zero `EMRAT` ordinal, and its bodies' pointer columns.
pub open spec fn spec_header_start(v: crate::ephemeris::EphemerisView) -> HeaderScan {
    HeaderScan {
        ncoeff: v.ncoeff,
        julian_start: v.julian_start,
        julian_end: v.julian_end,
        interval: v.interval,
        emrat_ordinal: 0,
        emrat_literal: v.emrat_literal,
        pointers: spec_pointers_of(v.bodies),
    }
}

/// Every pointer integer accumulated so far is in 32-bit range.
pub open spec fn spec_ptrs_bounded(ptrs: Seq<Seq<int>>) -> bool {
    forall|x: int, j: int|
        0 <= x < ptrs.len() && 0 <= j < ptrs[x].len() ==> crate::layout::spec_in_i32(
            #[trigger] ptrs[x][j],
        )
}

/// A parsed integer token always lies in 32-bit range.
pub proof fn lemma_parse_i32_range(t: Seq<u8>)
    ensures
        crate::layout::spec_in_i32(spec_parse_i32(t)),
{
}

/// One header line keeps the coefficient count and every pointer
/// integer in 32-bit range.
proof fn lemma_header_line_bounded(line: Seq<u8>, st: HeaderScan)
    requires
        crate::layout::spec_in_i32(st.ncoeff),
        spec_ptrs_bounded(st.pointers),
    ensures
        crate::layout::spec_in_i32(spec_header_line(line, st).ncoeff),
        spec_ptrs_bounded(spec_header_line(line, st).pointers),
{
    let toks = spec_tokens(line);
    let st2 = spec_header_line(line, st);
    if toks.len() > 1 {
        lemma_parse_i32_range(toks[1]);
    }
    if toks.len() > 0 && toks[0] == spec_group_key() && toks.len() > 1 && toks[1]
        == spec_code_1050() {
        let nb = st.pointers.len() as int;
        assert forall|x: int, j: int|
            0 <= x < st2.pointers.len() && 0 <= j < st2.pointers[x].len() implies
            crate::layout::spec_in_i32(#[trigger] st2.pointers[x][j]) by {
            lemma_parse_i32_range(toks[2 + x]);
            lemma_parse_i32_range(toks[2 + nb + x]);
            lemma_parse_i32_range(toks[2 + 2 * nb + x]);
            assert(st2.pointers[x] == spec_row_append(toks, st.pointers, x));
            if j < st.pointers[x].len() {
                assert(st2.pointers[x][j] == st.pointers[x][j]);
            }
        }
    }
}

/// The whole header scan keeps the coefficient count and every pointer
/// integer in 32-bit range.
pub proof fn lemma_header_scan_bounded(lines: Seq<Seq<u8>>, i: int, st: HeaderScan)
    requires
        crate::layout::spec_in_i32(st.ncoeff),
        spec_ptrs_bounded(st.pointers),
    ensures
        crate::layout::spec_in_i32(spec_header_scan(lines, i, st).ncoeff),
        spec_ptrs_bounded(spec_header_scan(lines, i, st).pointers),
    decreases lines.len() - i,
{
    if 0 <= i < lines.len() {
        lemma_header_line_bounded(lines[i], st);
        lemma_header_scan_bounded(lines, i + 1, spec_header_line(lines[i], st));
    }
}

impl Ephemeris {
    /// Scan the header resource and take over its record constants and
    /// per-body pointer columns; roster names, activity flags, block
    /// lengths and the year range stay untouched.
    pub fn read_header(&mut self, data: &[u8])
        ensures
            ({
                let st = spec_header_scan(spec_lines(data@), 0, spec_header_start(old(self)@));
                &&& final(self)@.ncoeff == st.ncoeff
                &&& final(self)@.julian_start == st.julian_start
                &&& final(self)@.julian_end == st.julian_end
                &&& final(self)@.interval == st.interval
                &&& final(self)@.emrat_literal == st.emrat_literal
                &&& spec_pointers_of(final(self)@.bodies) == st.pointers
                &&& final(self)@.bodies.len() == old(self)@.bodies.len()
                &&& forall|x: int|
                    0 <= x < old(self)@.bodies.len() ==> {
                        &&& (#[trigger] final(self)@.bodies[x]).name == old(self)@.bodies[x].name
                        &&& final(self)@.bodies[x].active == old(self)@.bodies[x].active
                        &&& final(self)@.bodies[x].block_length == old(
                            self,
                        )@.bodies[x].block_length
                    }
                &&& final(self)@.start_year == old(self)@.start_year
                &&& final(self)@.end_year == old(self)@.end_year
            }),
            final(self).config == old(self).config,
    {
        let lines = lines_of(data);
        let ghost glines = spec_lines(data@);
        let ncoeff_key: [u8; 7] = [78, 67, 79, 69, 70, 70, 61];
        let group_key: [u8; 5] = [71, 82, 79, 85, 80];
        let code_1030: [u8; 4] = [49, 48, 51, 48];
        let code_1040: [u8; 4] = [49, 48, 52, 48];
        let code_1041: [u8; 4] = [49, 48, 52, 49];
        let code_1050: [u8; 4] = [49, 48, 53, 48];
        let emrat_name: [u8; 5] = [69, 77, 82, 65, 84];
        proof {
            assert(ncoeff_key@ =~= spec_ncoeff_key());
            assert(group_key@ =~= spec_group_key());
            assert(code_1030@ =~= spec_code_1030());
            assert(code_1040@ =~= spec_code_1040());
            assert(code_1041@ =~= spec_code_1041());
            assert(code_1050@ =~= spec_code_1050());
            assert(emrat_name@ =~= spec_emrat_name());
        }
        let ghost st0 = spec_header_start(old(self)@);
        let mut bodies: Vec<crate::ephemeris::SpaceObject> = Vec::new();
        core::mem::swap(&mut bodies, &mut self.bodies);
        let nb = bodies.len();
        let mut nc: i64 = self.ncoeff;
        let mut js: i64 = self.julian_start.micros;
        let mut je: i64 = self.julian_end.micros;
        let mut iv: i64 = self.interval;
        let mut ord: i64 = 0;
        let mut lit: Vec<u8> = crate::config::clone_bytes(&self.emrat_literal);
        proof {
            assert(bodies@.map_values(|b: crate::ephemeris::SpaceObject| b@.pointer)
                =~= spec_pointers_of(old(self)@.bodies));
            assert((HeaderScan {
                ncoeff: nc as int,
                julian_start: js as int,
                julian_end: je as int,
                interval: iv as int,
                emrat_ordinal: 0,
                emrat_literal: lit@,
                pointers: bodies@.map_values(|b: crate::ephemeris::SpaceObject| b@.pointer),
            }) == st0);
        }
        let mut i: usize = 0;
        while i < lines.len()
            invariant
                i <= lines@.len(),
                lines@.map_values(|l: Vec<u8>| l@) == glines,
                glines == spec_lines(data@),
                ncoeff_key@ == spec_ncoeff_key(),
                group_key@ == spec_group_key(),
                code_1030@ == spec_code_1030(),
                code_1040@ == spec_code_1040(),
                code_1041@ == spec_code_1041(),
                code_1050@ == spec_code_1050(),
                emrat_name@ == spec_emrat_name(),
                st0 == spec_header_start(old(self)@),
                nb == bodies@.len(),
                nb == old(self)@.bodies.len(),
                0 <= ord <= 2_147_483_647,
                forall|x: int|
                    0 <= x < nb ==> {
                        &&& (#[trigger] bodies@[x])@.name == old(self)@.bodies[x].name
                        &&& bodies@[x]@.active == old(self)@.bodies[x].active
                        &&& bodies@[x]@.block_length == old(self)@.bodies[x].block_length
                    },
                spec_header_scan(glines, 0, st0) == spec_header_scan(
                    glines,
                    i as int,
                    (HeaderScan {
                        ncoeff: nc as int,
                        julian_start: js as int,
                        julian_end: je as int,
                        interval: iv as int,
                        emrat_ordinal: ord as int,
                        emrat_literal: lit@,
                        pointers: bodies@.map_values(|b: crate::ephemeris::SpaceObject| b@.pointer),
                    }),
                ),
            decreases lines@.len() - i,
        {
            let ghost gline = glines[i as int];
            let ghost st_in = HeaderScan {
                ncoeff: nc as int,
                julian_start: js as int,
                julian_end: je as int,
                interval: iv as int,
                emrat_ordinal: ord as int,
                emrat_literal: lit@,
                pointers: bodies@.map_values(|b: crate::ephemeris::SpaceObject| b@.pointer),
            };
            proof {
                assert(gline == lines@[i as int]@);
            }
            let toks = tokens_of(lines[i].as_slice());
            let ghost gtoks = spec_tokens(gline);
            proof {
                assert(toks@.map_values(|t: Vec<u8>| t@) == gtoks);
            }
            if toks.len() > 0 {
                proof {
                    assert(gtoks[0] == toks@[0]@);
                }
                if bytes_eq(toks[0].as_slice(), ncoeff_key.as_slice()) {
                    nc = if toks.len() > 1 {
                        proof {
                            assert(gtoks[1] == toks@[1]@);
                        }
                        parse_i32_tok(toks[1].as_slice())
                    } else {
                        0
                    };
                } else if bytes_eq(toks[0].as_slice(), group_key.as_slice()) && toks.len() > 1 {
                    proof {
                        assert(gtoks[1] == toks@[1]@);
                    }
                    if bytes_eq(toks[1].as_slice(), code_1030.as_slice()) {
                        if toks.len() > 2 {
                            proof {
                                assert(gtoks[2] == toks@[2]@);
                            }
                            js = parse_day_micros_tok(toks[2].as_slice());
                        }
                        if toks.len() > 3 {
                            proof {
                                assert(gtoks[3] == toks@[3]@);
                            }
                            je = parse_day_micros_tok(toks[3].as_slice());
                        }
                        if toks.len() > 4 {
                            proof {
                                assert(gtoks[4] == toks@[4]@);
                            }
                            iv = parse_i32_tok(toks[4].as_slice());
                        }
                    } else if bytes_eq(toks[1].as_slice(), code_1040.as_slice()) {
                        if toks.len() > 2 {
                            proof {
                                assert(gtoks[2] == toks@[2]@);
                            }
                            let n = parse_i32_tok(toks[2].as_slice());
                            let ghost prev = ord as int;
                            let mut k: i64 = 0;
                            let mut found = false;
                            while k < n && !found && toks.len() - 3 > k as usize
                                invariant
                                    0 <= k,
                                    k <= 2_147_483_647,
                                    n <= 2_147_483_647,
                                    toks@.len() >= 3,
                                    gtoks == toks@.map_values(|t: Vec<u8>| t@),
                                    emrat_name@ == spec_emrat_name(),
                                    !found ==> spec_find_emrat(gtoks, 3, n as int, 0, prev)
                                        == spec_find_emrat(gtoks, 3, n as int, k as int, prev),
                                    found ==> 0 <= k < n && spec_find_emrat(
                                        gtoks,
                                        3,
                                        n as int,
                                        0,
                                        prev,
                                    ) == k as int,
                                decreases n - k + (if found {
                                    0int
                                } else {
                                    1int
                                }),
                            {
                                proof {
                                    assert(gtoks[3 + k as int] == toks@[3 + k as int]@);
                                }
                                if bytes_eq(toks[3 + k as usize].as_slice(), emrat_name.as_slice())
                                {
                                    found = true;
                                } else {
                                    k = k + 1;
                                }
                            }
                            if found {
                                ord = k;
                            }
                            proof {
                                if !found {
                                    assert(spec_find_emrat(gtoks, 3, n as int, k as int, prev)
                                        == prev);
                                }
                                assert(ord as int == spec_find_emrat(gtoks, 3, n as int, 0, prev));
                            }
                        }
                    } else if bytes_eq(toks[1].as_slice(), code_1041.as_slice()) {
                        if toks.len() > 2 && ((ord as usize) < toks.len() - 2) {
                            proof {
                                assert(gtoks[2 + ord as int] == toks@[2 + ord as int]@);
                            }
                            let tok = &toks[2 + ord as usize];
                            if tok.len() >= EXPONENT_FIELD_WIDTH {
                                lit = repair_exponent(tok.as_slice());
                            }
                        }
                    } else if bytes_eq(toks[1].as_slice(), code_1050.as_slice()) {
                        let ghost gptrs0 = bodies@.map_values(
                            |b: crate::ephemeris::SpaceObject| b@.pointer,
                        );
                        let tl = toks.len();
                        let mut b: usize = 0;
                        while b < nb
                            invariant
                                b <= nb,
                                nb == bodies@.len(),
                                tl == toks@.len(),
                                gtoks == toks@.map_values(|t: Vec<u8>| t@),
                                gptrs0.len() == nb,
                                nb == old(self)@.bodies.len(),
                                forall|x: int|
                                    b <= x < nb ==> (#[trigger] bodies@[x])@.pointer == gptrs0[x],
                                forall|x: int|
                                    0 <= x < b ==> (#[trigger] bodies@[x])@.pointer
                                        == spec_row_append(gtoks, gptrs0, x),
                                forall|x: int|
                                    0 <= x < nb ==> {
                                        &&& (#[trigger] bodies@[x])@.name == old(
                                            self,
                                        )@.bodies[x].name
                                        &&& bodies@[x]@.active == old(self)@.bodies[x].active
                                        &&& bodies@[x]@.block_length == old(
                                            self,
                                        )@.bodies[x].block_length
                                    },
                            decreases nb - b,
                        {
                            let ghost p_before = bodies@[b as int]@.pointer;
                            if tl > 2 && b < tl - 2 {
                                proof {
                                    assert(gtoks[2 + b as int] == toks@[2 + b as int]@);
                                }
                                let v = parse_i32_tok(toks[2 + b].as_slice());
                                let ghost bv = bodies@[b as int]@;
                                bodies[b].header_data.push(v);
                                proof {
                                    assert(bodies@[b as int]@.pointer =~= bv.pointer + spec_ptr_opt(
                                        gtoks,
                                        2 + b as int,
                                    ));
                                }
                            } else {
                                proof {
                                    assert(bodies@[b as int]@.pointer =~= p_before + spec_ptr_opt(
                                        gtoks,
                                        2 + b as int,
                                    ));
                                }
                            }
                            let ghost p_mid1 = bodies@[b as int]@.pointer;
                            if tl > 2 && nb < tl - 2 && b < tl - 2 - nb {
                                proof {
                                    assert(gtoks[2 + nb as int + b as int] == toks@[2 + nb as int
                                        + b as int]@);
                                }
                                let v = parse_i32_tok(toks[2 + nb + b].as_slice());
                                let ghost bv = bodies@[b as int]@;
                                bodies[b].header_data.push(v);
                                proof {
                                    assert(bodies@[b as int]@.pointer =~= bv.pointer + spec_ptr_opt(
                                        gtoks,
                                        2 + nb as int + b as int,
                                    ));
                                }
                            } else {
                                proof {
                                    assert(bodies@[b as int]@.pointer =~= p_mid1 + spec_ptr_opt(
                                        gtoks,
                                        2 + nb as int + b as int,
                                    ));
                                }
                            }
                            let ghost p_mid2 = bodies@[b as int]@.pointer;
                            if tl > 2 && nb < tl - 2 && nb <= tl - 2 - nb && b < tl - 2 - nb - nb {
                                proof {
                                    assert(gtoks[2 + 2 * nb as int + b as int] == toks@[2 + 2 * nb
                                        as int + b as int]@);
                                }
                                let v = parse_i32_tok(toks[2 + nb + nb + b].as_slice());
                                let ghost bv = bodies@[b as int]@;
                                bodies[b].header_data.push(v);
                                proof {
                                    assert(bodies@[b as int]@.pointer =~= bv.pointer + spec_ptr_opt(
                                        gtoks,
                                        2 + 2 * nb as int + b as int,
                                    ));
                                }
                            } else {
                                proof {
                                    assert(bodies@[b as int]@.pointer =~= p_mid2 + spec_ptr_opt(
                                        gtoks,
                                        2 + 2 * nb as int + b as int,
                                    ));
                                }
                            }
                            proof {
                                assert(bodies@[b as int]@.pointer == spec_row_append(
                                    gtoks,
                                    gptrs0,
                                    b as int,
                                ));
                            }
                            b = b + 1;
                        }
                        proof {
                            assert(bodies@.map_values(
                                |bb: crate::ephemeris::SpaceObject| bb@.pointer,
                            ) =~= spec_group_1050(gtoks, gptrs0));
                        }
                    }
                }
            }
            proof {
                let st_out = HeaderScan {
                    ncoeff: nc as int,
                    julian_start: js as int,
                    julian_end: je as int,
                    interval: iv as int,
                    emrat_ordinal: ord as int,
                    emrat_literal: lit@,
                    pointers: bodies@.map_values(|b: crate::ephemeris::SpaceObject| b@.pointer),
                };
                assert(st_out == spec_header_line(gline, st_in));
            }
            i = i + 1;
        }
        self.bodies = bodies;
        self.ncoeff = nc;
        self.julian_start = crate::time::JulianDate { micros: js };
        self.julian_end = crate::time::JulianDate { micros: je };
        self.interval = iv;
        self.emrat_literal = lit;
        proof {
            assert(spec_pointers_of(self@.bodies) =~= self.bodies@.map_values(
                |b: crate::ephemeris::SpaceObject| b@.pointer,
            ));
        }
    }
}

} // verus!
