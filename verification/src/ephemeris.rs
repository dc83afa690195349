//! The ephemeris descriptor: the body roster, the header constants, and
//! the position query surface.

use vstd::prelude::*;

use crate::config::AppConfig;
use crate::time::JulianDate;
use crate::EphemerisError;
use crate::Error;

verus! {

/// Placeholder 3-D position, in the fixed-point coordinate scale of the
/// downstream interpolation engine. The engine that fills it from the
/// binary coefficient file attaches at [`Ephemeris::get_position`]; until
/// then every successful query yields the origin.
#[derive(Clone, Copy, Debug, PartialEq, Eq, Structural)]
pub struct Position {
    pub x: i64,
    pub y: i64,
    pub z: i64,
}

impl Position {
    /// Bundle three coordinates.
    pub fn new(x: i64, y: i64, z: i64) -> (r: Self)
        ensures
            r == (Position { x, y, z }),
    {
        Position { x, y, z }
    }
}

/// Mathematical view of a celestial body descriptor.
pub struct SpaceObjectView {
    pub name: Seq<u8>,
    pub active: bool,
    pub pointer: Seq<int>,
    pub block_length: int,
}

/// A celestial body of the roster: its name, active flag, the pointer
/// integers supplied by the header, and the derived coefficient-block
/// length.
pub struct SpaceObject {
    /// Whether this object is active.
    pub active: bool,
    /// Pointer integers from the header (start offset, coefficients per
    /// component, subintervals per interval).
    pub header_data: Vec<i64>,
    /// Name of the object.
    pub name: Vec<u8>,
    /// Derived length of this object's coefficient block.
    pub coefficient_length: i64,
}

impl View for SpaceObject {
    type V = SpaceObjectView;

    open spec fn view(&self) -> SpaceObjectView {
        SpaceObjectView {
            name: self.name@,
            active: self.active,
            pointer: self.header_data@.map_values(|p: i64| p as int),
            block_length: self.coefficient_length as int,
        }
    }
}

impl SpaceObject {
    /// A fresh roster entry: no pointer data, zero block length.
    pub fn new(name: Vec<u8>, active: bool) -> (r: Self)
        ensures
            r@ == (SpaceObjectView {
                name: name@,
                active,
                pointer: Seq::<int>::empty(),
                block_length: 0,
            }),
    {
        let r = SpaceObject { active, header_data: Vec::new(), name, coefficient_length: 0 };
        proof {
            assert(r@.pointer =~= Seq::<int>::empty());
        }
        r
    }
}

/// Mathematical view of the descriptor: everything the queries read.
pub struct EphemerisView {
    pub bodies: Seq<SpaceObjectView>,
    pub start_year: int,
    pub end_year: int,
    pub ncoeff: int,
    pub emrat_literal: Seq<u8>,
    pub interval: int,
    pub julian_start: int,
    pub julian_end: int,
}

/// The loaded metadata of one ephemeris dataset.
pub struct Ephemeris {
    /// The resource contents this descriptor was built from.
    pub config: AppConfig,
    /// The body roster, in file order.
    pub bodies: Vec<SpaceObject>,
    /// Nominal calendar year range of the dataset.
    pub start_year: i64,
    pub end_year: i64,
    /// Total coefficient count of a data record.
    pub ncoeff: i64,
    /// The Earth/Moon mass-ratio literal, in standard notation after the
    /// FORTRAN exponent repair.
    pub emrat_literal: Vec<u8>,
    /// Days per data interval.
    pub interval: i64,
    /// Valid Julian-date span.
    pub julian_start: JulianDate,
    pub julian_end: JulianDate,
}

impl View for Ephemeris {
    type V = EphemerisView;

    open spec fn view(&self) -> EphemerisView {
        EphemerisView {
            bodies: self.bodies@.map_values(|b: SpaceObject| b@),
            start_year: self.start_year as int,
            end_year: self.end_year as int,
            ncoeff: self.ncoeff as int,
            emrat_literal: self.emrat_literal@,
            interval: self.interval as int,
            julian_start: self.julian_start.micros as int,
            julian_end: self.julian_end.micros as int,
        }
    }
}

/// Metadata snapshot of a loaded descriptor.
pub struct EphemerisMetadata {
    pub start_year: i64,
    pub end_year: i64,
    pub julian_start: JulianDate,
    pub julian_end: JulianDate,
    pub interval_days: i64,
    /// The repaired Earth/Moon mass-ratio literal.
    pub earth_moon_ratio: Vec<u8>,
    pub number_of_coefficients: i64,
}

impl Ephemeris {
    /// All celestial bodies of the roster, in canonical order.
    pub fn get_bodies(&self) -> (r: &Vec<SpaceObject>)
        ensures
            r@.map_values(|b: SpaceObject| b@) == self@.bodies,
    {
        &self.bodies
    }

    /// The valid Julian-date span of the dataset.
    pub fn get_date_range(&self) -> (r: (JulianDate, JulianDate))
        ensures
            r.0.micros as int == self@.julian_start,
            r.1.micros as int == self@.julian_end,
    {
        (self.julian_start, self.julian_end)
    }

    /// A read-only snapshot of the header constants.
    pub fn get_metadata(&self) -> (r: EphemerisMetadata)
        ensures
            r.start_year as int == self@.start_year,
            r.end_year as int == self@.end_year,
            r.julian_start.micros as int == self@.julian_start,
            r.julian_end.micros as int == self@.julian_end,
            r.interval_days as int == self@.interval,
            r.earth_moon_ratio@ == self@.emrat_literal,
            r.number_of_coefficients as int == self@.ncoeff,
    {
        EphemerisMetadata {
            start_year: self.start_year,
            end_year: self.end_year,
            julian_start: self.julian_start,
            julian_end: self.julian_end,
            interval_days: self.interval,
            earth_moon_ratio: crate::config::clone_bytes(&self.emrat_literal),
            number_of_coefficients: self.ncoeff,
        }
    }
}

/// The state of a descriptor before any resource is read: empty roster,
/// zero constants.
pub open spec fn spec_fresh_view() -> EphemerisView {
    EphemerisView {
        bodies: Seq::<SpaceObjectView>::empty(),
        start_year: 0,
        end_year: 0,
        ncoeff: 0,
        emrat_literal: Seq::<u8>::empty(),
        interval: 0,
        julian_start: 0,
        julian_end: 0,
    }
}

/// Effect of the header resource on a descriptor whose roster is
/// already loaded: record constants taken over, pointer columns
/// distributed onto the roster, everything else kept.
pub open spec fn spec_after_header(v: EphemerisView, header: Seq<u8>) -> EphemerisView {
    let st = crate::header::spec_header_scan(
        crate::text::spec_lines(header),
        0,
        crate::header::spec_header_start(v),
    );
    EphemerisView {
        bodies: Seq::new(
            v.bodies.len(),
            |x: int|
                SpaceObjectView {
                    name: v.bodies[x].name,
                    active: v.bodies[x].active,
                    pointer: st.pointers[x],
                    block_length: v.bodies[x].block_length,
                },
        ),
        start_year: v.start_year,
        end_year: v.end_year,
        ncoeff: st.ncoeff,
        emrat_literal: st.emrat_literal,
        interval: st.interval,
        julian_start: st.julian_start,
        julian_end: st.julian_end,
    }
}

/// Effect of the layout pass: every body's block length derived, the
/// rest kept.
pub open spec fn spec_after_lengths(v: EphemerisView) -> EphemerisView {
    EphemerisView {
        bodies: Seq::new(
            v.bodies.len(),
            |x: int|
                SpaceObjectView {
                    name: v.bodies[x].name,
                    active: v.bodies[x].active,
                    pointer: v.bodies[x].pointer,
                    block_length: crate::layout::spec_block_length(v.bodies, v.ncoeff, x),
                },
        ),
        start_year: v.start_year,
        end_year: v.end_year,
        ncoeff: v.ncoeff,
        emrat_literal: v.emrat_literal,
        interval: v.interval,
        julian_start: v.julian_start,
        julian_end: v.julian_end,
    }
}

/// The whole load: roster and years from the initial-data resource,
/// constants and pointers from the header, block lengths derived.
pub open spec fn spec_initialized(
    v: EphemerisView,
    init_data: Seq<u8>,
    header: Seq<u8>,
) -> EphemerisView {
    spec_after_lengths(spec_after_header(crate::init_data::spec_read_init(v, init_data), header))
}

impl Ephemeris {
    /// Load the descriptor from the two text resources held in its
    /// configuration: the roster first, then the header (whose pointer
    /// record presupposes the roster order), then the derived block
    /// lengths.
    pub fn initialize(&mut self)
        requires
            crate::layout::spec_eph_bounded(old(self)@),
        ensures
            final(self)@ == spec_initialized(
                old(self)@,
                old(self).config.initial_data_dat@,
                old(self).config.header_441@,
            ),
            final(self).config == old(self).config,
    {
        let init_data = crate::config::clone_bytes(&self.config.initial_data_dat);
        let header = crate::config::clone_bytes(&self.config.header_441);
        self.read_init_data(init_data.as_slice());
        let ghost v1 = self@;
        proof {
            crate::init_data::lemma_init_scan_bounded(
                crate::text::spec_lines(init_data@),
                0,
                false,
                (crate::init_data::InitScan {
                    bodies: old(self)@.bodies,
                    start_year: old(self)@.start_year,
                    end_year: old(self)@.end_year,
                }),
            );
            assert(crate::layout::spec_bodies_bounded(v1.bodies));
            assert forall|x: int, j: int|
                0 <= x < crate::header::spec_pointers_of(v1.bodies).len() && 0 <= j
                    < crate::header::spec_pointers_of(v1.bodies)[x].len() implies
                crate::layout::spec_in_i32(
                    #[trigger] crate::header::spec_pointers_of(v1.bodies)[x][j],
                ) by {
                assert(crate::header::spec_pointers_of(v1.bodies)[x] == v1.bodies[x].pointer);
            }
            crate::header::lemma_header_scan_bounded(
                crate::text::spec_lines(header@),
                0,
                crate::header::spec_header_start(v1),
            );
        }
        self.read_header(header.as_slice());
        let ghost v2 = self@;
        let ghost st = crate::header::spec_header_scan(
            crate::text::spec_lines(header@),
            0,
            crate::header::spec_header_start(v1),
        );
        proof {
            assert forall|x: int| 0 <= x < v2.bodies.len() implies #[trigger] v2.bodies[x]
                == spec_after_header(v1, header@).bodies[x] by {
                assert(crate::header::spec_pointers_of(v2.bodies)[x] == v2.bodies[x].pointer);
                assert(v2.bodies[x].pointer == st.pointers[x]);
            }
            assert(v2.bodies =~= spec_after_header(v1, header@).bodies);
            assert(v2 == spec_after_header(v1, header@));
            assert forall|x: int, j: int|
                0 <= x < v2.bodies.len() && 0 <= j < v2.bodies[x].pointer.len() implies
                crate::layout::spec_in_i32(#[trigger] v2.bodies[x].pointer[j]) by {
                assert(v2.bodies[x].pointer == st.pointers[x]);
                assert(crate::layout::spec_in_i32(st.pointers[x][j]));
            }
            assert(crate::layout::spec_eph_bounded(v2));
        }
        self.calculate_coefficient_lengths();
        proof {
            assert(self@.bodies =~= spec_after_lengths(v2).bodies);
            assert(self@ == spec_after_lengths(v2));
        }
    }

    /// Build a descriptor from the resource contents of a dataset.
    pub fn new(config: AppConfig) -> (r: Self)
        ensures
            r@ == spec_initialized(
                spec_fresh_view(),
                config.initial_data_dat@,
                config.header_441@,
            ),
            r.config == config,
    {
        let mut eph = Ephemeris {
            config,
            bodies: Vec::new(),
            start_year: 0,
            end_year: 0,
            ncoeff: 0,
            emrat_literal: Vec::new(),
            interval: 0,
            julian_start: JulianDate { micros: 0 },
            julian_end: JulianDate { micros: 0 },
        };
        proof {
            assert(eph@.bodies =~= spec_fresh_view().bodies);
            assert(eph@.emrat_literal =~= spec_fresh_view().emrat_literal);
            assert(eph@ == spec_fresh_view());
        }
        eph.initialize();
        eph
    }
}

/// ASCII lower-casing of one byte.
pub open spec fn spec_lower(b: u8) -> u8 {
    if 65 <= b <= 90 {
        (b + 32) as u8
    } else {
        b
    }
}

/// ASCII lower-casing of a byte string.
pub open spec fn spec_lower_seq(s: Seq<u8>) -> Seq<u8> {
    s.map_values(|b: u8| spec_lower(b))
}

/// A byte string with every underscore removed.
pub open spec fn spec_strip_underscores(s: Seq<u8>) -> Seq<u8> {
    s.filter(|b: u8| b != 95)
}

/// Whether a stored body name answers to a query: equal ignoring ASCII
/// case, or equal ignoring case once the stored name's underscores are
/// dropped.
pub open spec fn spec_name_matches(stored: Seq<u8>, q: Seq<u8>) -> bool {
    ||| spec_lower_seq(stored) == spec_lower_seq(q)
    ||| spec_lower_seq(spec_strip_underscores(stored)) == spec_lower_seq(q)
}

/// Index of the first body at or after `i` whose name matches `q`, or
/// the roster length.
pub open spec fn spec_find_body(bodies: Seq<SpaceObjectView>, q: Seq<u8>, i: int) -> int
    decreases bodies.len() - i,
{
    if i < 0 || i >= bodies.len() {
        bodies.len() as int
    } else if spec_name_matches(bodies[i].name, q) {
        i
    } else {
        spec_find_body(bodies, q, i + 1)
    }
}

/// The names of a roster, in order.
pub open spec fn spec_names_of(bodies: Seq<SpaceObjectView>) -> Seq<Seq<u8>> {
    bodies.map_values(|b: SpaceObjectView| b.name)
}

/// How a position query resolves.
pub enum PositionOutcome {
    /// The Julian date lies outside the loaded span.
    OutOfRange,
    /// No body name matches the query.
    NotFound,
    /// The matched body is inactive.
    Inactive,
    /// The query reaches the interpolation seam.
    Resolved,
}

/// Resolution of a position query against a descriptor: the span check
/// first, then the case- and underscore-insensitive lookup, then the
/// active flag.
pub open spec fn spec_position_outcome(v: EphemerisView, q: Seq<u8>, jd: int) -> PositionOutcome {
    if jd < v.julian_start || jd > v.julian_end {
        PositionOutcome::OutOfRange
    } else {
        let ix = spec_find_body(v.bodies, q, 0);
        if ix == v.bodies.len() {
            PositionOutcome::NotFound
        } else if !v.bodies[ix].active {
            PositionOutcome::Inactive
        } else {
            PositionOutcome::Resolved
        }
    }
}

/// ASCII lower-casing of one byte.
fn lower_b(b: u8) -> (r: u8)
    ensures
        r == spec_lower(b),
{
    if 65 <= b && b <= 90 {
        b + 32
    } else {
        b
    }
}

/// Equality of two byte strings ignoring ASCII case.
fn eq_ignore_case(a: &[u8], b: &[u8]) -> (r: bool)
    ensures
        r <==> spec_lower_seq(a@) == spec_lower_seq(b@),
{
    if a.len() != b.len() {
        proof {
            assert(spec_lower_seq(a@).len() != spec_lower_seq(b@).len());
        }
        return false;
    }
    let mut i: usize = 0;
    while i < a.len()
        invariant
            a@.len() == b@.len(),
            i <= a@.len(),
            forall|k: int| 0 <= k < i ==> spec_lower(a@[k]) == spec_lower(b@[k]),
        decreases a@.len() - i,
    {
        if lower_b(a[i]) != lower_b(b[i]) {
            proof {
                assert(spec_lower_seq(a@)[i as int] != spec_lower_seq(b@)[i as int]);
            }
            return false;
        }
        i += 1;
    }
    proof {
        assert(spec_lower_seq(a@) =~= spec_lower_seq(b@));
    }
    true
}

/// Copy of a byte string with every underscore removed.
fn strip_underscores(s: &[u8]) -> (r: Vec<u8>)
    ensures
        r@ == spec_strip_underscores(s@),
{
    let mut r: Vec<u8> = Vec::new();
    let mut i: usize = 0;
    proof {
        reveal(Seq::filter);
        assert(s@.take(0) =~= Seq::<u8>::empty());
        assert(spec_strip_underscores(s@.take(0)) =~= Seq::<u8>::empty());
    }
    while i < s.len()
        invariant
            i <= s@.len(),
            r@ == spec_strip_underscores(s@.take(i as int)),
        decreases s@.len() - i,
    {
        proof {
            reveal(Seq::filter);
            assert(s@.take(i as int + 1).drop_last() =~= s@.take(i as int));
            assert(s@.take(i as int + 1).last() == s@[i as int]);
            assert(spec_strip_underscores(s@.take(i as int + 1)) == (if s@[i as int] != 95 {
                spec_strip_underscores(s@.take(i as int)).push(s@[i as int])
            } else {
                spec_strip_underscores(s@.take(i as int))
            }));
        }
        if s[i] != 95 {
            r.push(s[i]);
        }
        i += 1;
    }
    proof {
        assert(s@.take(i as int) =~= s@);
    }
    r
}

/// Whether a stored name answers to a query; exactly
/// [`spec_name_matches`].
fn name_matches(stored: &[u8], q: &[u8]) -> (r: bool)
    ensures
        r == spec_name_matches(stored@, q@),
{
    if eq_ignore_case(stored, q) {
        return true;
    }
    let stripped = strip_underscores(stored);
    eq_ignore_case(stripped.as_slice(), q)
}

/// Looking up a body depends on the query only through its ASCII
/// lower-casing: queries equal up to case resolve to the same index.
pub proof fn lemma_find_body_case_insensitive(
    bodies: Seq<SpaceObjectView>,
    q1: Seq<u8>,
    q2: Seq<u8>,
    i: int,
)
    requires
        spec_lower_seq(q1) == spec_lower_seq(q2),
    ensures
        spec_find_body(bodies, q1, i) == spec_find_body(bodies, q2, i),
    decreases bodies.len() - i,
{
    if 0 <= i < bodies.len() {
        lemma_find_body_case_insensitive(bodies, q1, q2, i + 1);
    }
}

/// A position query treats its body name case-insensitively: two
/// queries equal up to ASCII case resolve identically, against any
/// descriptor and date.
pub proof fn lemma_position_case_insensitive(
    v: EphemerisView,
    q1: Seq<u8>,
    q2: Seq<u8>,
    jd: int,
)
    requires
        spec_lower_seq(q1) == spec_lower_seq(q2),
    ensures
        spec_position_outcome(v, q1, jd) == spec_position_outcome(v, q2, jd),
{
    lemma_find_body_case_insensitive(v.bodies, q1, q2, 0);
}

impl Ephemeris {
    /// Resolve a body's position at a Julian date.
    ///
    /// Fails with `OutOfRange` exactly when the date lies outside the
    /// loaded span; then with `NotFound`, listing every known name,
    /// exactly when no stored name matches the query ignoring ASCII
    /// case and underscores in stored names; then with `Inactive`
    /// exactly when the first matching body is inactive. Otherwise the
    /// query reaches the seam of the (external) interpolation engine,
    /// which this layer reports as the origin.
    pub fn get_position(&self, body_name: &[u8], jd: JulianDate) -> (r: Result<Position, Error>)
        ensures
            spec_position_outcome(self@, body_name@, jd.micros as int)
                == PositionOutcome::OutOfRange <==> r matches Err(Error::Ephemeris(
            EphemerisError::OutOfRange)),
            spec_position_outcome(self@, body_name@, jd.micros as int)
                == PositionOutcome::NotFound ==> (r matches Err(Error::Ephemeris(
            EphemerisError::NotFound(ns))) && ns@.map_values(|n: Vec<u8>| n@) == spec_names_of(
                self@.bodies,
            )),
            r matches Err(Error::Ephemeris(EphemerisError::NotFound(ns))) ==>
                spec_position_outcome(self@, body_name@, jd.micros as int)
                == PositionOutcome::NotFound,
            spec_position_outcome(self@, body_name@, jd.micros as int)
                == PositionOutcome::Inactive <==> r matches Err(Error::Ephemeris(
            EphemerisError::Inactive)),
            spec_position_outcome(self@, body_name@, jd.micros as int)
                == PositionOutcome::Resolved <==> r == Ok::<Position, Error>(
                Position { x: 0, y: 0, z: 0 },
            ),
            (jd.micros < self.julian_start.micros || jd.micros > self.julian_end.micros) <==> (
            r matches Err(Error::Ephemeris(EphemerisError::OutOfRange))),
    {
        if jd.micros < self.julian_start.micros || jd.micros > self.julian_end.micros {
            return Err(Error::Ephemeris(EphemerisError::OutOfRange));
        }
        let n = self.bodies.len();
        let mut ix: usize = 0;
        let mut found = false;
        while ix < n && !found
            invariant
                0 <= ix <= n,
                n == self.bodies@.len(),
                !found ==> spec_find_body(self@.bodies, body_name@, 0) == spec_find_body(
                    self@.bodies,
                    body_name@,
                    ix as int,
                ),
                found ==> ix < n && spec_find_body(self@.bodies, body_name@, 0) == ix as int,
            decreases n - ix + (if found {
                0int
            } else {
                1int
            }),
        {
            proof {
                assert(self@.bodies[ix as int].name == self.bodies@[ix as int]@.name);
            }
            if name_matches(self.bodies[ix].name.as_slice(), body_name) {
                found = true;
            } else {
                ix += 1;
            }
        }
        if !found {
            let mut names: Vec<Vec<u8>> = Vec::new();
            let mut k: usize = 0;
            while k < n
                invariant
                    k <= n,
                    n == self.bodies@.len(),
                    names@.map_values(|nm: Vec<u8>| nm@) =~= spec_names_of(self@.bodies).take(
                        k as int,
                    ),
                decreases n - k,
            {
                let ghost prev = names@.map_values(|nm: Vec<u8>| nm@);
                names.push(crate::config::clone_bytes(&self.bodies[k].name));
                proof {
                    assert(names@.map_values(|nm: Vec<u8>| nm@) =~= prev.push(
                        self.bodies@[k as int]@.name,
                    ));
                    assert(spec_names_of(self@.bodies).take(k as int + 1) =~= spec_names_of(
                        self@.bodies,
                    ).take(k as int).push(self@.bodies[k as int].name));
                }
                k += 1;
            }
            proof {
                assert(spec_names_of(self@.bodies).take(n as int) =~= spec_names_of(self@.bodies));
            }
            return Err(Error::Ephemeris(EphemerisError::NotFound(names)));
        }
        if !self.bodies[ix].active {
            return Err(Error::Ephemeris(EphemerisError::Inactive));
        }
        Ok(Position::new(0, 0, 0))
    }
}

} // verus!
