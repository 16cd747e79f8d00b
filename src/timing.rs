use vstd::prelude::*;

use core::cmp::Ordering;

use crate::hitsounds::SampleSet;
use crate::rational::Rational;
use crate::snapping::{nearest, nearest_snap, pos_dist};

verus! {

/// Why a timing question about a collection of timing points has no answer.
#[derive(Clone, Copy, Debug, PartialEq, Eq, Structural)]
pub enum TimingError {
    /// An inherited timing point has no uninherited ancestor recorded.
    MissingAncestor,
    /// A reference names an index outside the collection.
    UnknownPoint,
    /// A chain of references is longer than the collection, so it loops.
    CyclicReference,
    /// A tempo with a zero BPM (numerator or denominator) or a zero meter.
    InvalidTempo,
    /// A measure offset with a zero denominator.
    InvalidOffset,
    /// The result does not fit its integer type.
    OutOfRange,
}

/// A precise location in time.
///
/// Either an absolute timestamp in milliseconds, or a position counted from
/// a timing point of a collection (named by its index): a number of whole
/// measures plus a fraction of one measure.
#[derive(Clone, Copy, Debug)]
pub enum TimeLocation {
    /// Milliseconds since the beginning of the audio file; may be negative.
    Absolute(i32),
    /// `Relative(point, measure, offset)`: `measure` whole measures plus
    /// `offset` of a measure after the timing point at index `point`.
    Relative(usize, u32, Rational),
}

/// Whether a timing point defines a tempo or inherits it.
#[derive(Clone, Copy, Debug)]
pub enum TimingPointKind {
    /// Defines the tempo of its timing section.
    Uninherited {
        /// Beats per minute, as an exact fraction.
        bpm: Rational,
        /// Beats in a single measure.
        meter: u32,
    },
    /// Takes its tempo from an uninherited ancestor.
    Inherited {
        /// Index of the uninherited timing point this one belongs to; `None`
        /// until the collection has been assembled.
        parent: Option<usize>,
        /// Slider velocity multiplier.
        slider_velocity: Rational,
    },
}

/// A timing point: the settings of a timing section.
#[derive(Clone, Copy, Debug)]
pub struct TimingPoint {
    /// Where the timing point stands.
    pub time: TimeLocation,
    /// Whether kiai time is on for this timing point.
    pub kiai: bool,
    /// The sample set of this timing section.
    pub sample_set: SampleSet,
    /// Index of a custom sample.
    pub sample_index: u32,
    /// Volume of this timing section.
    pub volume: u16,
    /// Uninherited or inherited, with the data of each.
    pub kind: TimingPointKind,
}

/// Follows ancestor references from the point at index `p`, for at most
/// `fuel` steps, to the first uninherited timing point.
pub open spec fn walk(points: Seq<TimingPoint>, p: int, fuel: nat) -> Result<
    TimingPoint,
    TimingError,
>
    decreases fuel,
{
    if fuel == 0 {
        Err(TimingError::CyclicReference)
    } else if p < 0 || p >= points.len() {
        Err(TimingError::UnknownPoint)
    } else {
        match points[p].kind {
            TimingPointKind::Uninherited { .. } => Ok(points[p]),
            TimingPointKind::Inherited { parent, .. } => match parent {
                None => Err(TimingError::MissingAncestor),
                Some(q) => walk(points, q as int, (fuel - 1) as nat),
            },
        }
    }
}

/// The nearest uninherited ancestor of `tp` in `points` (`tp` itself when it
/// is uninherited). A chain longer than the collection must revisit a point,
/// so it is reported as a cycle.
pub open spec fn ancestor_of(points: Seq<TimingPoint>, tp: TimingPoint) -> Result<
    TimingPoint,
    TimingError,
> {
    match tp.kind {
        TimingPointKind::Uninherited { .. } => Ok(tp),
        TimingPointKind::Inherited { parent, .. } => match parent {
            None => Err(TimingError::MissingAncestor),
            Some(q) => walk(points, q as int, points.len()),
        },
    }
}

/// The BPM and meter in force at `tp`: those of its uninherited ancestor.
pub open spec fn tempo_of(points: Seq<TimingPoint>, tp: TimingPoint) -> Result<
    (Rational, u32),
    TimingError,
> {
    match ancestor_of(points, tp) {
        Ok(a) => match a.kind {
            TimingPointKind::Uninherited { bpm, meter } => Ok((bpm, meter)),
            TimingPointKind::Inherited { .. } => Err(TimingError::MissingAncestor),
        },
        Err(e) => Err(e),
    }
}

impl TimingPoint {
    /// The closest uninherited timing point among `self` and its ancestors.
    pub fn get_uninherited_ancestor<'a>(&'a self, points: &'a Vec<TimingPoint>) -> (r: Result<
        &'a TimingPoint,
        TimingError,
    >)
        ensures
            match r {
                Ok(a) => ancestor_of(points@, *self) == Ok::<TimingPoint, TimingError>(*a),
                Err(e) => ancestor_of(points@, *self) == Err::<TimingPoint, TimingError>(e),
            },
            r matches Ok(a) ==> a.kind is Uninherited,
    {
        match &self.kind {
            TimingPointKind::Uninherited { .. } => Ok(self),
            TimingPointKind::Inherited { parent, .. } => match parent {
                None => Err(TimingError::MissingAncestor),
                Some(first) => {
                    let mut cur: usize = *first;
                    let mut fuel: usize = points.len();
                    while fuel > 0
                        invariant
                            walk(points@, cur as int, fuel as nat) == ancestor_of(points@, *self),
                        decreases fuel,
                    {
                        if cur >= points.len() {
                            return Err(TimingError::UnknownPoint);
                        }
                        let tp = &points[cur];
                        match &tp.kind {
                            TimingPointKind::Uninherited { .. } => {
                                return Ok(tp);
                            },
                            TimingPointKind::Inherited { parent, .. } => match parent {
                                None => {
                                    return Err(TimingError::MissingAncestor);
                                },
                                Some(q) => {
                                    cur = *q;
                                    fuel = fuel - 1;
                                },
                            },
                        }
                    }
                    Err(TimingError::CyclicReference)
                },
            },
        }
    }

    /// The BPM of this timing section, read from its uninherited ancestor.
    pub fn get_bpm(&self, points: &Vec<TimingPoint>) -> (r: Result<Rational, TimingError>)
        ensures
            match r {
                Ok(b) => tempo_of(points@, *self) matches Ok((bpm, _)) && b == bpm,
                Err(e) => tempo_of(points@, *self) == Err::<(Rational, u32), TimingError>(e),
            },
    {
        match self.get_uninherited_ancestor(points) {
            Ok(a) => match &a.kind {
                TimingPointKind::Uninherited { bpm, .. } => Ok(*bpm),
                TimingPointKind::Inherited { .. } => Err(TimingError::MissingAncestor),
            },
            Err(e) => Err(e),
        }
    }

    /// The meter of this timing section, read from its uninherited ancestor.
    pub fn get_meter(&self, points: &Vec<TimingPoint>) -> (r: Result<u32, TimingError>)
        ensures
            match r {
                Ok(m) => tempo_of(points@, *self) matches Ok((_, meter)) && m == meter,
                Err(e) => tempo_of(points@, *self) == Err::<(Rational, u32), TimingError>(e),
            },
    {
        match self.get_uninherited_ancestor(points) {
            Ok(a) => match &a.kind {
                TimingPointKind::Uninherited { meter, .. } => Ok(*meter),
                TimingPointKind::Inherited { .. } => Err(TimingError::MissingAncestor),
            },
            Err(e) => Err(e),
        }
    }
}


/// A tempo can be used to measure time: BPM and meter are positive.
pub open spec fn valid_tempo(bpm: Rational, meter: u32) -> bool {
    bpm.numer > 0 && bpm.denom > 0 && meter > 0
}

/// Numerator of the length of one measure in milliseconds:
/// `60000 / bpm * meter == measure_numer / measure_denom`.
pub open spec fn measure_numer(bpm: Rational, meter: u32) -> int {
    60000 * meter * bpm.denom
}

/// Denominator of the length of one measure in milliseconds.
pub open spec fn measure_denom(bpm: Rational) -> int {
    bpm.numer as int
}

/// Milliseconds covered by `measure` whole measures plus `offset` of a
/// measure, computed exactly and rounded toward zero.
pub open spec fn span(bpm: Rational, meter: u32, measure: u32, offset: Rational) -> int {
    (measure_numer(bpm, meter) * (measure * offset.denom + offset.numer)) / (measure_denom(bpm)
        * offset.denom)
}

pub open spec fn fits_i32(v: int) -> bool {
    i32::MIN <= v <= i32::MAX
}

/// The absolute time of `loc` in milliseconds, following at most `fuel`
/// references to timing points.
pub open spec fn ms_within(points: Seq<TimingPoint>, loc: TimeLocation, fuel: nat) -> Result<
    int,
    TimingError,
>
    decreases fuel,
{
    match loc {
        TimeLocation::Absolute(v) => Ok(v as int),
        TimeLocation::Relative(p, measure, offset) => {
            if fuel == 0 {
                Err(TimingError::CyclicReference)
            } else if p >= points.len() {
                Err(TimingError::UnknownPoint)
            } else {
                match ms_within(points, points[p as int].time, (fuel - 1) as nat) {
                    Err(e) => Err(e),
                    Ok(base) => match tempo_of(points, points[p as int]) {
                        Err(e) => Err(e),
                        Ok((bpm, meter)) => {
                            if !valid_tempo(bpm, meter) {
                                Err(TimingError::InvalidTempo)
                            } else if offset.denom == 0 {
                                Err(TimingError::InvalidOffset)
                            } else if !fits_i32(base + span(bpm, meter, measure, offset)) {
                                Err(TimingError::OutOfRange)
                            } else {
                                Ok(base + span(bpm, meter, measure, offset))
                            }
                        },
                    },
                }
            }
        },
    }
}

/// The absolute time of `loc` in milliseconds. A chain of references longer
/// than the collection must revisit a point, so it is reported as a cycle.
pub open spec fn ms_of(points: Seq<TimingPoint>, loc: TimeLocation) -> Result<int, TimingError> {
    ms_within(points, loc, points.len())
}

/// The mathematical value of a millisecond result.
pub open spec fn as_int(r: Result<i32, TimingError>) -> Result<int, TimingError> {
    match r {
        Ok(v) => Ok(v as int),
        Err(e) => Err(e),
    }
}

proof fn lemma_quotient_large(a: int, b: int)
    requires
        a > u128::MAX,
        0 < b <= u64::MAX,
    ensures
        a / b > u64::MAX,
{
    vstd::arithmetic::div_mod::lemma_fundamental_div_mod(a, b);
    let q = a / b;
    let r = a % b;
    assert(a == b * q + r && 0 <= r < b);
    if q <= u64::MAX {
        assert(b * q <= u64::MAX * u64::MAX) by (nonlinear_arith)
            requires
                0 < b <= u64::MAX,
                q <= u64::MAX,
        {
            if q > 0 {
                vstd::arithmetic::mul::lemma_mul_upper_bound(b, u64::MAX as int, q, u64::MAX as int);
            }
        };
        assert(false);
    }
}

/// The milliseconds spanned by `measure` measures plus `offset` at the given
/// tempo, added to `base`.
fn offset_from(base: i32, bpm: Rational, meter: u32, measure: u32, offset: Rational) -> (r: Result<
    i32,
    TimingError,
>)
    requires
        valid_tempo(bpm, meter),
        offset.denom > 0,
    ensures
        match r {
            Ok(v) => fits_i32(base + span(bpm, meter, measure, offset)) && v == base + span(
                bpm,
                meter,
                measure,
                offset,
            ),
            Err(e) => !fits_i32(base + span(bpm, meter, measure, offset)) && e
                == TimingError::OutOfRange,
        },
{
    proof {
        assert(60000 * meter * bpm.denom <= 60000 * u32::MAX * u32::MAX) by (nonlinear_arith)
            requires
                meter <= u32::MAX,
                bpm.denom <= u32::MAX,
        ;
        assert(measure * offset.denom <= u32::MAX * u32::MAX) by (nonlinear_arith)
            requires
                measure <= u32::MAX,
                offset.denom <= u32::MAX,
        ;
        assert(bpm.numer * offset.denom <= u32::MAX * u32::MAX) by (nonlinear_arith)
            requires
                bpm.numer <= u32::MAX,
                offset.denom <= u32::MAX,
        ;
        assert(bpm.numer * offset.denom > 0) by (nonlinear_arith)
            requires
                bpm.numer > 0,
                offset.denom > 0,
        ;
    }
    let mn: u128 = 60000u128 * (meter as u128) * (bpm.denom as u128);
    let units: u128 = (measure as u128) * (offset.denom as u128) + (offset.numer as u128);
    let den: u128 = (bpm.numer as u128) * (offset.denom as u128);
    let ghost total = span(bpm, meter, measure, offset);
    match mn.checked_mul(units) {
        None => {
            proof {
                lemma_quotient_large(mn * units, den as int);
            }
            Err(TimingError::OutOfRange)
        },
        Some(num) => {
            let q: u128 = num / den;
            assert(q == total);
            if q > 0x1_0000_0000u128 {
                Err(TimingError::OutOfRange)
            } else {
                let t: i64 = base as i64 + q as i64;
                if t < i32::MIN as i64 || t > i32::MAX as i64 {
                    Err(TimingError::OutOfRange)
                } else {
                    Ok(t as i32)
                }
            }
        },
    }
}

/// `ms_within`, computed.
fn ms_with_fuel(loc: &TimeLocation, points: &Vec<TimingPoint>, fuel: usize) -> (r: Result<
    i32,
    TimingError,
>)
    ensures
        as_int(r) == ms_within(points@, *loc, fuel as nat),
    decreases fuel,
{
    match loc {
        TimeLocation::Absolute(v) => Ok(*v),
        TimeLocation::Relative(p, measure, offset) => {
            if fuel == 0 {
                return Err(TimingError::CyclicReference);
            }
            if *p >= points.len() {
                return Err(TimingError::UnknownPoint);
            }
            let tp = &points[*p];
            let base = match ms_with_fuel(&tp.time, points, fuel - 1) {
                Ok(b) => b,
                Err(e) => {
                    return Err(e);
                },
            };
            let bpm = match tp.get_bpm(points) {
                Ok(b) => b,
                Err(e) => {
                    return Err(e);
                },
            };
            let meter = match tp.get_meter(points) {
                Ok(m) => m,
                Err(e) => {
                    return Err(e);
                },
            };
            if bpm.numer == 0 || bpm.denom == 0 || meter == 0 {
                return Err(TimingError::InvalidTempo);
            }
            if offset.denom == 0 {
                return Err(TimingError::InvalidOffset);
            }
            offset_from(base, bpm, meter, *measure, *offset)
        },
    }
}

impl TimeLocation {
    /// The absolute time of this location in milliseconds from the beginning
    /// of the audio file, resolving references into `points`.
    pub fn into_milliseconds(&self, points: &Vec<TimingPoint>) -> (r: Result<i32, TimingError>)
        ensures
            as_int(r) == ms_of(points@, *self),
    {
        ms_with_fuel(self, points, points.len())
    }

    /// The whole measures and the canonical subdivision of a measure after
    /// `tp` that express this location (resolved to milliseconds first).
    /// The nearest canonical point is taken when it lies within 3 ms;
    /// otherwise the result is `(0, 0/1)`. The start of the next measure is
    /// a candidate too, so a time just before a measure starts snaps to
    /// that start.
    pub fn approximate(&self, tp: &TimingPoint, points: &Vec<TimingPoint>) -> (r: Result<
        (u32, Rational),
        TimingError,
    >)
        ensures
            approx_matches(r, location_approx(points@, *self, *tp)),
    {
        let cur = match self.into_milliseconds(points) {
            Ok(v) => v,
            Err(e) => {
                return Err(e);
            },
        };
        let base = match tp.time.into_milliseconds(points) {
            Ok(v) => v,
            Err(e) => {
                return Err(e);
            },
        };
        let bpm = match tp.get_bpm(points) {
            Ok(b) => b,
            Err(e) => {
                return Err(e);
            },
        };
        let meter = match tp.get_meter(points) {
            Ok(m) => m,
            Err(e) => {
                return Err(e);
            },
        };
        if bpm.numer == 0 || bpm.denom == 0 || meter == 0 {
            return Err(TimingError::InvalidTempo);
        }
        Ok(approximate_from(cur, base, bpm, meter))
    }

    /// Whether the two locations resolve to the same millisecond.
    pub fn eq(&self, other: &TimeLocation, points: &Vec<TimingPoint>) -> (r: Result<
        bool,
        TimingError,
    >)
        ensures
            r == same_time(points@, *self, *other),
    {
        match self.cmp(other, points) {
            Ok(o) => Ok(o matches Ordering::Equal),
            Err(e) => Err(e),
        }
    }

    /// The order of the milliseconds the two locations resolve to.
    pub fn cmp(&self, other: &TimeLocation, points: &Vec<TimingPoint>) -> (r: Result<
        Ordering,
        TimingError,
    >)
        ensures
            r == compare_locations(points@, *self, *other),
    {
        let x = match self.into_milliseconds(points) {
            Ok(v) => v,
            Err(e) => {
                return Err(e);
            },
        };
        let y = match other.into_milliseconds(points) {
            Ok(v) => v,
            Err(e) => {
                return Err(e);
            },
        };
        if x < y {
            Ok(Ordering::Less)
        } else if x == y {
            Ok(Ordering::Equal)
        } else {
            Ok(Ordering::Greater)
        }
    }
}

/// The measure whose candidates are searched for a time `delta` ms after
/// the anchor: the whole measures in `delta`, at most `u32::MAX`.
pub open spec fn search_measure(delta: int, bpm: Rational, meter: u32) -> int {
    let m = (delta * measure_denom(bpm)) / measure_numer(bpm, meter);
    if m > u32::MAX {
        u32::MAX as int
    } else {
        m
    }
}

/// The measure and subdivision `(m, i, d)` that best express `cur`, for a
/// section anchored at `base` with the given tempo. Candidates are the
/// canonical subdivisions of the measure holding `cur` and the start of the
/// next measure, placed exactly as relative locations are converted; the
/// first nearest one is taken when it lies within 3 ms, else the fallback
/// `(0, 0, 1)`. No candidate lies before the anchor, so a time before it
/// is near the anchor or gets the fallback, both `(0, 0, 1)`.
pub open spec fn approx_from(cur: int, base: int, bpm: Rational, meter: u32) -> (int, int, int) {
    let delta = cur - base;
    if delta < 0 {
        (0, 0, 1)
    } else {
        let mn = measure_numer(bpm, meter);
        let md = measure_denom(bpm);
        let k = search_measure(delta, bpm, meter);
        let c = nearest(delta, mn, md, k);
        if pos_dist(delta, mn, md, k, c) >= 3 {
            (0, 0, 1)
        } else if c.0 == c.1 {
            (k + 1, 0, 1)
        } else {
            (k, c.0, c.1)
        }
    }
}

/// `approx_from` with the anchor and tempo of the reference point `tp`.
pub open spec fn approx_of(points: Seq<TimingPoint>, cur: int, tp: TimingPoint) -> Result<
    (int, int, int),
    TimingError,
> {
    match ms_of(points, tp.time) {
        Err(e) => Err(e),
        Ok(base) => match tempo_of(points, tp) {
            Err(e) => Err(e),
            Ok((bpm, meter)) => {
                if !valid_tempo(bpm, meter) {
                    Err(TimingError::InvalidTempo)
                } else {
                    Ok(approx_from(cur, base, bpm, meter))
                }
            },
        },
    }
}

/// The approximation of the location `loc` against `tp`: first resolved to
/// milliseconds, then expressed relative to `tp`.
pub open spec fn location_approx(points: Seq<TimingPoint>, loc: TimeLocation, tp: TimingPoint) -> Result<
    (int, int, int),
    TimingError,
> {
    match ms_of(points, loc) {
        Err(e) => Err(e),
        Ok(cur) => approx_of(points, cur, tp),
    }
}

/// A computed approximation matches its mathematical description; the
/// fraction may be written in other terms.
pub open spec fn approx_matches(
    r: Result<(u32, Rational), TimingError>,
    s: Result<(int, int, int), TimingError>,
) -> bool {
    match (r, s) {
        (Ok((m, f)), Ok((sm, si, sd))) => m == sm && f.wf() && f.denotes(si, sd),
        (Err(e), Err(se)) => e == se,
        _ => false,
    }
}

/// The measure count and subdivision of `cur` relative to a section
/// anchored at `base` with the given tempo.
fn approximate_from(cur: i32, base: i32, bpm: Rational, meter: u32) -> (r: (u32, Rational))
    requires
        valid_tempo(bpm, meter),
    ensures
        approx_matches(Ok(r), Ok(approx_from(cur as int, base as int, bpm, meter))),
{
    proof {
        assert(60000 * meter * bpm.denom <= 60000 * u32::MAX * u32::MAX) by (nonlinear_arith)
            requires
                meter <= u32::MAX,
                bpm.denom <= u32::MAX,
        ;
        assert(60000 * meter * bpm.denom > 0) by (nonlinear_arith)
            requires
                meter > 0,
                bpm.denom > 0,
        ;
    }
    let mn: u128 = 60000u128 * (meter as u128) * (bpm.denom as u128);
    let md: u128 = bpm.numer as u128;
    let delta: i64 = cur as i64 - base as i64;
    if delta < 0 {
        return (0, Rational::from_integer(0));
    }
    proof {
        assert(delta * md <= 0x1_0000_0000 * u32::MAX) by (nonlinear_arith)
            requires
                0 <= delta <= 0x1_0000_0000,
                md <= u32::MAX,
        ;
        assert(delta * md >= 0) by (nonlinear_arith)
            requires
                0 <= delta,
                md >= 0,
        ;
    }
    let whole: u128 = ((delta as u128) * md) / mn;
    let k: u128 = if whole > u32::MAX as u128 {
        u32::MAX as u128
    } else {
        whole
    };
    assert(k as int == search_measure(delta as int, bpm, meter));
    let (i, d, dist) = nearest_snap(delta, mn, md, k);
    if dist >= 3 {
        (0, Rational::from_integer(0))
    } else if i == d {
        ((k + 1) as u32, Rational::from_integer(0))
    } else {
        (k as u32, Rational::new(i, d))
    }
}

/// The order of two integers.
pub open spec fn order_of(x: int, y: int) -> Ordering {
    if x < y {
        Ordering::Less
    } else if x == y {
        Ordering::Equal
    } else {
        Ordering::Greater
    }
}

/// The order of the milliseconds that two locations resolve to.
pub open spec fn compare_locations(points: Seq<TimingPoint>, a: TimeLocation, b: TimeLocation) -> Result<
    Ordering,
    TimingError,
> {
    match ms_of(points, a) {
        Err(e) => Err(e),
        Ok(x) => match ms_of(points, b) {
            Err(e) => Err(e),
            Ok(y) => Ok(order_of(x, y)),
        },
    }
}

/// Whether two locations resolve to the same millisecond.
pub open spec fn same_time(points: Seq<TimingPoint>, a: TimeLocation, b: TimeLocation) -> Result<
    bool,
    TimingError,
> {
    match compare_locations(points, a, b) {
        Err(e) => Err(e),
        Ok(o) => Ok(o is Equal),
    }
}

impl TimingPoint {
    /// Whether the two timing points stand at the same millisecond; their
    /// other settings are not compared.
    pub fn eq(&self, other: &TimingPoint, points: &Vec<TimingPoint>) -> (r: Result<
        bool,
        TimingError,
    >)
        ensures
            r == same_time(points@, self.time, other.time),
    {
        self.time.eq(&other.time, points)
    }

    /// The order of the two timing points in time; their other settings are
    /// not compared.
    pub fn cmp(&self, other: &TimingPoint, points: &Vec<TimingPoint>) -> (r: Result<
        Ordering,
        TimingError,
    >)
        ensures
            r == compare_locations(points@, self.time, other.time),
    {
        self.time.cmp(&other.time, points)
    }
}

/// Index of the last uninherited point among the first `j` of `points`.
pub open spec fn last_uninherited_before(points: Seq<TimingPoint>, j: int) -> Option<usize>
    decreases j,
{
    if j <= 0 {
        None
    } else if points[j - 1].kind is Uninherited {
        Some((j - 1) as usize)
    } else {
        last_uninherited_before(points, j - 1)
    }
}

/// `tp` with its ancestor reference set to `parent` when it is inherited.
pub open spec fn with_parent(tp: TimingPoint, parent: Option<usize>) -> TimingPoint {
    match tp.kind {
        TimingPointKind::Uninherited { .. } => tp,
        TimingPointKind::Inherited { slider_velocity, .. } => TimingPoint {
            kind: TimingPointKind::Inherited { parent, slider_velocity },
            ..tp
        },
    }
}

/// Assembles a collection of timing points listed in time order: each
/// inherited point gets as its ancestor the nearest uninherited point before
/// it (none when there is no such point). Uninherited points and all other
/// settings are left as they are.
pub fn assign_parents(points: &mut Vec<TimingPoint>)
    ensures
        final(points)@.len() == old(points)@.len(),
        forall|j: int|
            0 <= j < old(points)@.len() ==> #[trigger] final(points)@[j] == with_parent(
                old(points)@[j],
                last_uninherited_before(old(points)@, j),
            ),
{
    let ghost orig = points@;
    let mut last: Option<usize> = None;
    let mut j: usize = 0;
    while j < points.len()
        invariant
            points@.len() == orig.len(),
            j <= orig.len(),
            last == last_uninherited_before(orig, j as int),
            forall|k: int|
                0 <= k < j ==> #[trigger] points@[k] == with_parent(
                    orig[k],
                    last_uninherited_before(orig, k),
                ),
            forall|k: int| j <= k < orig.len() ==> #[trigger] points@[k] == orig[k],
        decreases orig.len() - j,
    {
        let tp = points[j];
        match tp.kind {
            TimingPointKind::Uninherited { .. } => {
                last = Some(j);
            },
            TimingPointKind::Inherited { slider_velocity, .. } => {
                let updated = TimingPoint {
                    kind: TimingPointKind::Inherited { parent: last, slider_velocity },
                    ..tp
                };
                points.set(j, updated);
            },
        }
        j = j + 1;
    }
}

/// Every timing point of the collection stands at a time that resolves.
pub open spec fn all_resolve(points: Seq<TimingPoint>) -> bool {
    forall|j: int| 0 <= j < points.len() ==> (#[trigger] ms_of(points, points[j].time)) is Ok
}

/// The timing points stand in the order of their resolved times.
pub open spec fn sorted_by_time(points: Seq<TimingPoint>) -> bool {
    forall|j: int|
        0 < j < points.len() ==> ms_of(points, points[j - 1].time)->Ok_0 <= (#[trigger] ms_of(
            points,
            points[j].time,
        ))->Ok_0
}

/// Whether the collection is in time order. Fails with the error of the
/// first timing point whose time does not resolve.
pub fn in_time_order(points: &Vec<TimingPoint>) -> (r: Result<bool, TimingError>)
    ensures
        match r {
            Ok(b) => all_resolve(points@) && b == sorted_by_time(points@),
            Err(e) => exists|j: int|
                0 <= j < points@.len() && ms_of(points@, points@[j].time) == Err::<int, TimingError>(
                    e,
                ) && forall|k: int| 0 <= k < j ==> (#[trigger] ms_of(points@, points@[k].time)) is Ok,
        },
{
    let mut sorted = true;
    let mut prev: i32 = 0;
    let mut j: usize = 0;
    while j < points.len()
        invariant
            j <= points@.len(),
            forall|k: int| 0 <= k < j ==> (#[trigger] ms_of(points@, points@[k].time)) is Ok,
            j > 0 ==> prev as int == ms_of(points@, points@[j - 1].time)->Ok_0,
            sorted == forall|k: int|
                0 < k < j ==> ms_of(points@, points@[k - 1].time)->Ok_0 <= (#[trigger] ms_of(
                    points@,
                    points@[k].time,
                ))->Ok_0,
        decreases points@.len() - j,
    {
        let t = match points[j].time.into_milliseconds(points) {
            Ok(t) => t,
            Err(e) => {
                return Err(e);
            },
        };
        if j > 0 && t < prev {
            sorted = false;
        }
        prev = t;
        j = j + 1;
    }
    Ok(sorted)
}

/// The fields of a timing point's line in a beatmap file, in file order:
/// `time,beat_length,meter,sample_set,sample_index,volume,uninherited,kiai`.
/// The beat length is the fraction `beat_numer / beat_denom`, negated when
/// `beat_negative`: milliseconds per beat for an uninherited point,
/// `-100 / slider_velocity` for an inherited one.
#[derive(Clone, Copy, Debug, PartialEq, Eq, Structural)]
pub struct TimingLine {
    pub time: i32,
    pub beat_numer: u64,
    pub beat_denom: u64,
    pub beat_negative: bool,
    pub meter: u32,
    pub sample_set: u32,
    pub sample_index: u32,
    pub volume: u16,
    pub uninherited: u32,
    pub kiai: u32,
}

/// `tp` is uninherited with a BPM that has a zero numerator or denominator.
pub open spec fn has_zero_bpm(tp: TimingPoint) -> bool {
    match tp.kind {
        TimingPointKind::Uninherited { bpm, .. } => bpm.numer == 0 || bpm.denom == 0,
        TimingPointKind::Inherited { .. } => false,
    }
}

/// The line of `tp` as its fields: the resolved time, the beat length as a
/// fraction (60000 / BPM, or -100 / slider velocity), the meter (0 for an
/// inherited point), the sample set code, index and volume, and the
/// uninherited and kiai flags as 1 or 0. Fails when the time does not
/// resolve, or with `InvalidTempo` when an uninherited BPM has a zero part.
pub fn timing_point_line(tp: &TimingPoint, points: &Vec<TimingPoint>) -> (r: Result<
    TimingLine,
    TimingError,
>)
    ensures
        match r {
            Ok(l) => ms_of(points@, tp.time) == Ok::<int, TimingError>(l.time as int)
                && l.sample_set == tp.sample_set.spec_code() && l.sample_index == tp.sample_index
                && l.volume == tp.volume && l.kiai == (if tp.kiai {
                1u32
            } else {
                0u32
            }) && match tp.kind {
                TimingPointKind::Uninherited { bpm, meter } => l.uninherited == 1 && l.meter
                    == meter && !l.beat_negative && l.beat_numer == 60000 * bpm.denom
                    && l.beat_denom == bpm.numer && bpm.numer > 0 && bpm.denom > 0,
                TimingPointKind::Inherited { slider_velocity, .. } => l.uninherited == 0 && l.meter
                    == 0 && l.beat_negative && l.beat_numer == 100 * slider_velocity.denom
                    && l.beat_denom == slider_velocity.numer,
            },
            Err(e) => ms_of(points@, tp.time) == Err::<int, TimingError>(e) || (ms_of(
                points@,
                tp.time,
            ) is Ok && has_zero_bpm(*tp) && e == TimingError::InvalidTempo),
        },
{
    let time = match tp.time.into_milliseconds(points) {
        Ok(t) => t,
        Err(e) => {
            return Err(e);
        },
    };
    let kiai: u32 = if tp.kiai {
        1
    } else {
        0
    };
    match tp.kind {
        TimingPointKind::Uninherited { bpm, meter } => {
            if bpm.numer == 0 || bpm.denom == 0 {
                return Err(TimingError::InvalidTempo);
            }
            Ok(TimingLine {
                time,
                beat_numer: 60000u64 * (bpm.denom as u64),
                beat_denom: bpm.numer as u64,
                beat_negative: false,
                meter,
                sample_set: tp.sample_set.code(),
                sample_index: tp.sample_index,
                volume: tp.volume,
                uninherited: 1,
                kiai,
            })
        },
        TimingPointKind::Inherited { slider_velocity, .. } => Ok(TimingLine {
            time,
            beat_numer: 100u64 * (slider_velocity.denom as u64),
            beat_denom: slider_velocity.numer as u64,
            beat_negative: true,
            meter: 0,
            sample_set: tp.sample_set.code(),
            sample_index: tp.sample_index,
            volume: tp.volume,
            uninherited: 0,
            kiai,
        }),
    }
}

} // verus!
