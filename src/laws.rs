use vstd::prelude::*;

use core::cmp::Ordering;

use crate::rational::{same_value, Rational};
use crate::snapping::{denoms, first_min, grid, lemma_first_min, nearest, pos, pos_dist, window};
use crate::timing::{
    ancestor_of, approx_from, compare_locations, location_approx, measure_denom, measure_numer,
    ms_of, ms_within, same_time, search_measure, span, tempo_of, valid_tempo, walk, TimeLocation,
    TimingError, TimingPoint, TimingPointKind,
};

verus! {

/// A walk that succeeds with some fuel succeeds the same way with more.
proof fn lemma_walk_more_fuel(points: Seq<TimingPoint>, p: int, fuel: nat)
    requires
        walk(points, p, fuel) is Ok,
    ensures
        walk(points, p, fuel + 1) == walk(points, p, fuel),
    decreases fuel,
{
    if let TimingPointKind::Inherited { parent: Some(q), .. } = points[p].kind {
        lemma_walk_more_fuel(points, q as int, (fuel - 1) as nat);
    }
}

/// A resolution that succeeds with some fuel succeeds the same way with more.
proof fn lemma_ms_more_fuel(points: Seq<TimingPoint>, loc: TimeLocation, fuel: nat)
    requires
        ms_within(points, loc, fuel) is Ok,
    ensures
        ms_within(points, loc, fuel + 1) == ms_within(points, loc, fuel),
    decreases fuel,
{
    if let TimeLocation::Relative(p, _, _) = loc {
        lemma_ms_more_fuel(points, points[p as int].time, (fuel - 1) as nat);
    }
}

/// An inherited point whose ancestor is uninherited has that ancestor's BPM
/// and meter.
pub proof fn lemma_inherited_tempo(points: Seq<TimingPoint>, tp: TimingPoint, a: usize)
    requires
        tp.kind matches TimingPointKind::Inherited { parent: Some(q), .. } && q == a,
        a < points.len(),
        points[a as int].kind is Uninherited,
    ensures
        points[a as int].kind matches TimingPointKind::Uninherited { bpm, meter } && tempo_of(
            points,
            tp,
        ) == Ok::<(Rational, u32), TimingError>((bpm, meter)),
{
}

/// Over a chain of inherited points, each link has the tempo of the next
/// one: an inherited point whose parent is inherited too resolves to the
/// same uninherited ancestor as that parent, whenever the point resolves.
pub proof fn lemma_inherited_chain(points: Seq<TimingPoint>, tp: TimingPoint, k: usize)
    requires
        tp.kind matches TimingPointKind::Inherited { parent: Some(q), .. } && q == k,
        k < points.len(),
        points[k as int].kind is Inherited,
        ancestor_of(points, tp) is Ok,
    ensures
        ancestor_of(points, tp) == ancestor_of(points, points[k as int]),
        tempo_of(points, tp) == tempo_of(points, points[k as int]),
{
    if let TimingPointKind::Inherited { parent: Some(q), .. } = points[k as int].kind {
        assert(walk(points, k as int, points.len()) == walk(
            points,
            q as int,
            (points.len() - 1) as nat,
        ));
        lemma_walk_more_fuel(points, q as int, (points.len() - 1) as nat);
    }
}

/// The point at index `p` is inherited and names `q` as its ancestor.
pub open spec fn parent_is(points: Seq<TimingPoint>, p: int, q: int) -> bool {
    points[p].kind matches TimingPointKind::Inherited { parent: Some(x), .. } && x as int == q
}

/// `c` is a chain of indices into `points`, each point naming the next as
/// its ancestor.
pub open spec fn is_chain(points: Seq<TimingPoint>, c: Seq<int>) -> bool {
    &&& c.len() > 0
    &&& forall|j: int| 0 <= j < c.len() ==> 0 <= #[trigger] c[j] < points.len()
    &&& forall|j: int| 0 <= j < c.len() - 1 ==> parent_is(points, #[trigger] c[j], c[j + 1])
}

/// The walk stops at the point `p`: it is uninherited, or inherited with
/// no ancestor.
pub open spec fn stops_at(points: Seq<TimingPoint>, p: int) -> bool {
    !(points[p].kind matches TimingPointKind::Inherited { parent: Some(_), .. })
}

/// What resolving ends with at a point where the walk stops.
pub open spec fn stop_result(points: Seq<TimingPoint>, p: int) -> Result<TimingPoint, TimingError> {
    if points[p].kind is Uninherited {
        Ok(points[p])
    } else {
        Err(TimingError::MissingAncestor)
    }
}

proof fn lemma_chain_shift(points: Seq<TimingPoint>, c: Seq<int>, a: int, b: int, t: int)
    requires
        is_chain(points, c),
        0 <= a < b,
        0 <= t,
        b + t < c.len(),
        c[a] == c[b],
    ensures
        c[a + t] == c[b + t],
    decreases t,
{
    if t > 0 {
        lemma_chain_shift(points, c, a, b, t - 1);
        assert(parent_is(points, c[a + t - 1], c[a + t]));
        assert(parent_is(points, c[b + t - 1], c[b + t]));
    }
}

/// A chain that ends where the walk stops visits no point twice, so it is
/// no longer than the collection.
proof fn lemma_chain_short(points: Seq<TimingPoint>, c: Seq<int>)
    requires
        is_chain(points, c),
        stops_at(points, c.last()),
    ensures
        c.no_duplicates(),
        c.len() <= points.len(),
{
    let k = c.len() - 1;
    assert forall|a: int, b: int| 0 <= a < c.len() && 0 <= b < c.len() && a != b implies c[a]
        != c[b] by {
        if c[a] == c[b] {
            let (lo, hi) = if a < b {
                (a, b)
            } else {
                (b, a)
            };
            lemma_chain_shift(points, c, lo, hi, k - hi);
            assert(parent_is(points, c[lo + k - hi], c[lo + k - hi + 1]));
            assert(c[lo + (k - hi)] == c[k]);
        }
    }
    c.unique_seq_to_set();
    vstd::set_lib::lemma_int_range(0, points.len() as int);
    assert forall|x: int| c.to_set().contains(x) implies vstd::set_lib::set_int_range(
        0,
        points.len() as int,
    ).contains(x) by {
        assert(c.contains(x));
    }
    vstd::set_lib::lemma_len_subset(c.to_set(), vstd::set_lib::set_int_range(0, points.len() as int));
}

proof fn lemma_walk_chain(points: Seq<TimingPoint>, c: Seq<int>, from: int, fuel: nat)
    requires
        is_chain(points, c),
        stops_at(points, c.last()),
        0 <= from < c.len(),
        fuel >= c.len() - from,
    ensures
        walk(points, c[from], fuel) == stop_result(points, c.last()),
    decreases c.len() - from,
{
    if from < c.len() - 1 {
        assert(parent_is(points, c[from], c[from + 1]));
        lemma_walk_chain(points, c, from + 1, (fuel - 1) as nat);
    }
}

/// Ancestor resolution over chains of any length: when each point of the
/// chain `c` names the next as its ancestor and the last is uninherited,
/// the first resolves to that last point and has its BPM and meter; when
/// the last is inherited with no ancestor, the first fails with
/// `MissingAncestor`.
pub proof fn lemma_chain_ancestor(points: Seq<TimingPoint>, c: Seq<int>)
    requires
        is_chain(points, c),
        stops_at(points, c.last()),
    ensures
        ancestor_of(points, points[c[0]]) == stop_result(points, c.last()),
        points[c.last()].kind matches TimingPointKind::Uninherited { bpm, meter } ==> tempo_of(
            points,
            points[c[0]],
        ) == Ok::<(Rational, u32), TimingError>((bpm, meter)),
        points[c.last()].kind is Inherited ==> tempo_of(points, points[c[0]]) == Err::<
            (Rational, u32),
            TimingError,
        >(TimingError::MissingAncestor),
{
    lemma_chain_short(points, c);
    if c.len() > 1 {
        assert(parent_is(points, c[0], c[1]));
        lemma_walk_chain(points, c, 1, points.len());
    }
}

proof fn lemma_walk_cycle(points: Seq<TimingPoint>, s: Set<int>, x: int, fuel: nat)
    requires
        s.contains(x),
        forall|y: int|
            #[trigger] s.contains(y) ==> 0 <= y < points.len() && (points[y].kind matches TimingPointKind::Inherited {
                parent: Some(q),
                ..
            } && s.contains(q as int)),
    ensures
        walk(points, x, fuel) == Err::<TimingPoint, TimingError>(TimingError::CyclicReference),
    decreases fuel,
{
    if fuel > 0 {
        if let TimingPointKind::Inherited { parent: Some(q), .. } = points[x].kind {
            lemma_walk_cycle(points, s, q as int, (fuel - 1) as nat);
        }
    }
}

/// Resolving fails with `CyclicReference`, and does not loop, for every
/// point of a set of inherited points that name only each other as
/// ancestors (a self-reference, or a cycle of any length).
pub proof fn lemma_cycle_fails(points: Seq<TimingPoint>, s: Set<int>, j: int)
    requires
        s.contains(j),
        forall|y: int|
            #[trigger] s.contains(y) ==> 0 <= y < points.len() && (points[y].kind matches TimingPointKind::Inherited {
                parent: Some(q),
                ..
            } && s.contains(q as int)),
    ensures
        ancestor_of(points, points[j]) == Err::<TimingPoint, TimingError>(
            TimingError::CyclicReference,
        ),
        tempo_of(points, points[j]) == Err::<(Rational, u32), TimingError>(
            TimingError::CyclicReference,
        ),
{
    if let TimingPointKind::Inherited { parent: Some(q), .. } = points[j].kind {
        lemma_walk_cycle(points, s, q as int, points.len());
    }
}

/// Comparison of locations follows the milliseconds they resolve to: two
/// locations are equal exactly when they resolve to the same millisecond,
/// `<` and `<=` are transitive, and swapping the operands reverses the order.
pub proof fn lemma_order_consistent(
    points: Seq<TimingPoint>,
    a: TimeLocation,
    b: TimeLocation,
    c: TimeLocation,
)
    requires
        ms_of(points, a) is Ok,
        ms_of(points, b) is Ok,
        ms_of(points, c) is Ok,
    ensures
        same_time(points, a, b) == Ok::<bool, TimingError>(ms_of(points, a) == ms_of(points, b)),
        compare_locations(points, a, b) == Ok::<Ordering, TimingError>(Ordering::Less) <==> (ms_of(
            points,
            a,
        )->Ok_0 < ms_of(points, b)->Ok_0),
        compare_locations(points, a, b) == Ok::<Ordering, TimingError>(Ordering::Less)
            <==> compare_locations(points, b, a) == Ok::<Ordering, TimingError>(Ordering::Greater),
        compare_locations(points, a, b) != Ok::<Ordering, TimingError>(Ordering::Greater)
            && compare_locations(points, b, c) != Ok::<Ordering, TimingError>(Ordering::Greater)
            ==> compare_locations(points, a, c) != Ok::<Ordering, TimingError>(Ordering::Greater),
        compare_locations(points, a, b) == Ok::<Ordering, TimingError>(Ordering::Less)
            && compare_locations(points, b, c) == Ok::<Ordering, TimingError>(Ordering::Less)
            ==> compare_locations(points, a, c) == Ok::<Ordering, TimingError>(Ordering::Less),
{
}

/// A point of measure `k` in 48ths of a measure after the anchor.
pub open spec fn units(k: int, c: (int, int)) -> int {
    48 * k + (48int / c.1) * c.0
}

/// Where the point `u` 48ths of a measure after the anchor falls, rounded
/// toward zero.
pub open spec fn at_units(mn: int, md: int, u: int) -> int {
    (mn * u) / (48 * md)
}

proof fn lemma_pos_units(mn: int, md: int, k: int, c: (int, int))
    requires
        mn > 0,
        md > 0,
        k >= 0,
        0 <= c.0 <= c.1,
        c.1 > 0,
        48int % c.1 == 0,
    ensures
        pos(mn, md, k, c) == at_units(mn, md, units(k, c)),
        units(k, c) >= 48 * k,
        c.0 < c.1 ==> units(k, c) < 48 * k + 48,
        c.0 == c.1 ==> units(k, c) == 48 * k + 48,
        c.0 > 0 ==> units(k, c) > 48 * k,
        c.0 == 0 ==> units(k, c) == 48 * k,
{
    let e = 48int / c.1;
    vstd::arithmetic::div_mod::lemma_fundamental_div_mod(48, c.1);
    assert(c.1 * e == 48);
    let a = mn * (k * c.1 + c.0);
    assert(e * a == mn * units(k, c) && e * (md * c.1) == 48 * md) by (nonlinear_arith)
        requires
            c.1 * e == 48,
            a == mn * (k * c.1 + c.0),
            units(k, c) == 48 * k + e * c.0,
    ;
    assert(a >= 0 && md * c.1 > 0 && e > 0) by (nonlinear_arith)
        requires
            mn > 0,
            md > 0,
            k >= 0,
            c.0 >= 0,
            c.1 > 0,
            c.1 * e == 48,
            a == mn * (k * c.1 + c.0),
    ;
    vstd::arithmetic::div_mod::lemma_div_multiples_vanish_quotient(e, a, md * c.1);
    assert(e * c.0 >= 0 && (c.0 < c.1 ==> e * c.0 < 48) && (c.0 == c.1 ==> e * c.0 == 48) && (c.0
        > 0 ==> e * c.0 > 0) && (c.0 == 0 ==> e * c.0 == 0)) by (nonlinear_arith)
        requires
            c.1 * e == 48,
            0 <= c.0 <= c.1,
            e > 0,
    ;
}

/// Points a 48th of a measure or more apart fall `t` ms or more apart when
/// a measure lasts at least `48 * t` ms.
proof fn lemma_units_gap(mn: int, md: int, u1: int, u2: int, t: int)
    requires
        md > 0,
        t >= 0,
        mn >= t * 48 * md,
        0 <= u1 < u2,
    ensures
        at_units(mn, md, u2) >= at_units(mn, md, u1) + t,
{
    let dd = 48 * md;
    vstd::arithmetic::div_mod::lemma_fundamental_div_mod(mn * u1, dd);
    let q = (mn * u1) / dd;
    let r = (mn * u1) % dd;
    assert((q + t) * dd + r == mn * u1 + t * dd) by (nonlinear_arith)
        requires
            mn * u1 == dd * q + r,
    ;
    vstd::arithmetic::div_mod::lemma_fundamental_div_mod_converse(mn * u1 + t * dd, dd, q + t, r);
    assert(mn * u2 >= mn * u1 + t * dd) by (nonlinear_arith)
        requires
            mn >= t * 48 * md,
            u2 >= u1 + 1,
            dd == 48 * md,
            t >= 0,
            md > 0,
    ;
    vstd::arithmetic::div_mod::lemma_div_is_ordered(mn * u1 + t * dd, mn * u2, dd);
}

/// A time after the point of 48ths `48 * j` lies in measure `j` or later.
proof fn lemma_measure_at_least(delta: int, mn: int, md: int, j: int)
    requires
        mn > 0,
        md > 0,
        j >= 0,
        delta > at_units(mn, md, 48 * j),
    ensures
        (delta * md) / mn >= j,
{
    let dd = 48 * md;
    let p = at_units(mn, md, 48 * j);
    vstd::arithmetic::div_mod::lemma_fundamental_div_mod(mn * (48 * j), dd);
    assert(delta * md >= mn * j) by (nonlinear_arith)
        requires
            mn * (48 * j) == dd * p + (mn * (48 * j)) % dd,
            (mn * (48 * j)) % dd < dd,
            dd == 48 * md,
            delta >= p + 1,
            md > 0,
    ;
    vstd::arithmetic::div_mod::lemma_div_is_ordered(mn * j, delta * md, mn);
    assert((mn * j) / mn == j) by {
        vstd::arithmetic::div_mod::lemma_fundamental_div_mod_converse(mn * j, mn, j, 0);
    }
}

/// A time before the point of 48ths `48 * j + 48` lies in measure `j` or
/// earlier.
proof fn lemma_measure_at_most(delta: int, mn: int, md: int, j: int)
    requires
        mn > 0,
        md > 0,
        j >= 0,
        delta < at_units(mn, md, 48 * j + 48),
    ensures
        (delta * md) / mn <= j,
{
    let dd = 48 * md;
    let p = at_units(mn, md, 48 * j + 48);
    vstd::arithmetic::div_mod::lemma_fundamental_div_mod(mn * (48 * j + 48), dd);
    assert(delta * md < mn * (j + 1)) by (nonlinear_arith)
        requires
            mn * (48 * j + 48) == dd * p + (mn * (48 * j + 48)) % dd,
            (mn * (48 * j + 48)) % dd >= 0,
            dd == 48 * md,
            delta <= p - 1,
            md > 0,
    ;
    vstd::arithmetic::div_mod::lemma_fundamental_div_mod(delta * md, mn);
    let q = (delta * md) / mn;
    if q > j {
        assert(mn * q >= mn * (j + 1)) by (nonlinear_arith)
            requires
                q >= j + 1,
                mn > 0,
        ;
        assert(false);
    }
}

/// The candidate search finds a canonical point when `delta` lies within
/// `tol` of it and measures are long enough that other candidates lie
/// farther.
proof fn lemma_search_finds(delta: int, mn: int, md: int, m: int, i: int, d: int, tol: int)
    requires
        md > 0,
        0 <= tol <= 2,
        mn >= (2 * tol + 1) * 48 * md,
        denoms().contains(d),
        0 <= i < d,
        0 <= m <= u32::MAX,
        delta >= 0,
        -tol <= delta - pos(mn, md, m, (i, d)) <= tol,
    ensures
        ({
            let k = if (delta * md) / mn > u32::MAX {
                u32::MAX as int
            } else {
                (delta * md) / mn
            };
            let c = nearest(delta, mn, md, k);
            &&& pos_dist(delta, mn, md, k, c) <= tol
            &&& c.0 == c.1 ==> k + 1 == m && i == 0
            &&& c.0 != c.1 ==> k == m && c.0 * d == i * c.1
        }),
{
    let jj = choose|jj: int| 0 <= jj < denoms().len() && denoms()[jj] == d;
    crate::snapping::lemma_denom_divides(jj);
    assert(mn > 0) by (nonlinear_arith)
        requires
            mn >= (2 * tol + 1) * 48 * md,
            md > 0,
            tol >= 0,
    ;
    let ut = units(m, (i, d));
    lemma_pos_units(mn, md, m, (i, d));
    let t = 2 * tol + 1;
    // the measure searched is m, or m - 1 when the target starts measure m
    lemma_units_gap(mn, md, ut, 48 * m + 48, t);
    lemma_measure_at_most(delta, mn, md, m);
    let k = (delta * md) / mn;
    if i > 0 {
        lemma_units_gap(mn, md, 48 * m, ut, t);
        lemma_measure_at_least(delta, mn, md, m);
    } else if m > 0 {
        lemma_units_gap(mn, md, 48 * m - 48, ut, t);
        assert(48 * (m - 1) == 48 * m - 48);
        lemma_measure_at_least(delta, mn, md, m - 1);
    }
    assert(k == m || (k == m - 1 && i == 0));
    // a candidate of the window stands at the target
    let w = window(k);
    crate::snapping::lemma_grid_shape(8);
    let g = grid();
    let ti: int = if k == m {
        crate::snapping::lemma_grid_has(8, jj, i);
        choose|ti: int| 0 <= ti < g.len() && g[ti] == (i, d)
    } else {
        g.len() as int
    };
    assert(0 <= ti < w.len());
    assert(units(k, w[ti]) == ut) by {
        if k == m {
            assert(w[ti] == g[ti]);
        } else {
            assert(w[ti] == (1int, 1int));
            assert(48int / 1 == 48);
        }
    }
    assert forall|x: int| 0 <= x < w.len() implies ({
        let c = #[trigger] w[x];
        &&& 0 <= c.0 <= c.1
        &&& c.1 > 0
        &&& 48int % c.1 == 0
        &&& (c.0 == c.1 ==> c == (1int, 1int))
    }) by {
        if x < g.len() {
            assert(w[x] == g[x]);
        }
    }
    lemma_pos_units(mn, md, k, w[ti]);
    assert(pos_dist(delta, mn, md, k, w[ti]) <= tol);
    lemma_first_min(w, delta, mn, md, k);
    let fi = first_min(w, delta, mn, md, k);
    let c = w[fi];
    assert(c == nearest(delta, mn, md, k));
    lemma_pos_units(mn, md, k, c);
    let uc = units(k, c);
    // any other value lies at least t ms from the target, beyond tol
    if uc < ut {
        lemma_units_gap(mn, md, uc, ut, t);
    } else if uc > ut {
        lemma_units_gap(mn, md, ut, uc, t);
    }
    assert(uc == ut);
    if c.0 == c.1 {
        assert(48int / 1 == 48);
        let e = 48int / d;
        vstd::arithmetic::div_mod::lemma_fundamental_div_mod(48, d);
        assert(i == 0) by (nonlinear_arith)
            requires
                48 * k + 48 == 48 * m + e * i,
                d * e == 48,
                0 <= i < d,
                k <= m,
        ;
    } else {
        let e = 48int / d;
        let e1 = 48int / c.1;
        vstd::arithmetic::div_mod::lemma_fundamental_div_mod(48, d);
        vstd::arithmetic::div_mod::lemma_fundamental_div_mod(48, c.1);
        assert(0 <= e * i < 48 && 0 <= e1 * c.0 < 48) by (nonlinear_arith)
            requires
                d * e == 48,
                c.1 * e1 == 48,
                0 <= i < d,
                0 <= c.0 < c.1,
        ;
        assert(k == m && e1 * c.0 == e * i);
        assert(c.0 * d == i * c.1) by (nonlinear_arith)
            requires
                e1 * c.0 == e * i,
                c.1 * e1 == 48,
                d * e == 48,
        {
            assert(c.1 * d * (e1 * c.0) == c.1 * d * (e * i));
        }
    }
}

/// Round trip: when a measure lasts at least 48 ms, the location `measure`
/// measures plus `i / d` after the point at index `p`, for a canonical `d`
/// and `i < d`, converted to milliseconds and approximated against that
/// same point, gives back `measure` and a fraction equal to `i / d`.
pub proof fn lemma_round_trip(points: Seq<TimingPoint>, p: usize, measure: u32, i: u32, d: u32)
    requires
        p < points.len(),
        tempo_of(points, points[p as int]) matches Ok((bpm, meter)) && valid_tempo(bpm, meter)
            && measure_numer(bpm, meter) >= 48 * measure_denom(bpm),
        denoms().contains(d as int),
        i < d,
        ms_of(points, TimeLocation::Relative(p, measure, Rational { numer: i, denom: d })) is Ok,
    ensures
        location_approx(
            points,
            TimeLocation::Relative(p, measure, Rational { numer: i, denom: d }),
            points[p as int],
        ) matches Ok((m2, i2, d2)) && m2 == measure && same_value(i2, d2, i as int, d as int),
{
    let loc = TimeLocation::Relative(p, measure, Rational { numer: i, denom: d });
    let tp = points[p as int];
    let n = points.len();
    let (bpm, meter) = tempo_of(points, tp)->Ok_0;
    lemma_ms_more_fuel(points, tp.time, (n - 1) as nat);
    let base = ms_of(points, tp.time)->Ok_0;
    let t = ms_of(points, loc)->Ok_0;
    let sp = span(bpm, meter, measure, Rational { numer: i, denom: d });
    assert(t == base + sp);
    lemma_near_grid_snaps(base, bpm, meter, measure, i, d, 0);
}

/// Tolerance: when a measure lasts at least 240 ms, a time up to 2 ms away
/// from the point `i / d` of measure `measure` (a canonical `d`, `i < d`),
/// on either side, approximates to `measure` and a fraction equal to
/// `i / d`. (Before the anchor only the anchor itself is near, and every
/// time there gives `(0, 0/1)`.)
pub proof fn lemma_near_grid_snaps(
    base: int,
    bpm: Rational,
    meter: u32,
    measure: u32,
    i: u32,
    d: u32,
    delta: int,
)
    requires
        valid_tempo(bpm, meter),
        measure_numer(bpm, meter) >= 48 * measure_denom(bpm),
        delta != 0 ==> measure_numer(bpm, meter) >= 240 * measure_denom(bpm),
        denoms().contains(d as int),
        i < d,
        -2 <= delta <= 2,
    ensures
        approx_from(
            base + span(bpm, meter, measure, Rational { numer: i, denom: d }) + delta,
            base,
            bpm,
            meter,
        ) matches (m2, i2, d2) && m2 == measure && same_value(i2, d2, i as int, d as int),
{
    let mn = measure_numer(bpm, meter);
    let md = measure_denom(bpm);
    let sp = span(bpm, meter, measure, Rational { numer: i, denom: d });
    let cur = base + sp + delta;
    assert(sp == pos(mn, md, measure as int, (i as int, d as int)));
    let jj = choose|jj: int| 0 <= jj < denoms().len() && denoms()[jj] == d as int;
    crate::snapping::lemma_denom_divides(jj);
    assert(mn > 0 && md > 0);
    lemma_pos_units(mn, md, measure as int, (i as int, d as int));
    if sp + delta < 0 {
        // only the anchor is this close to a time before it
        if measure > 0 || i > 0 {
            let ut = units(measure as int, (i as int, d as int));
            assert(at_units(mn, md, 0) == 0);
            lemma_units_gap(mn, md, 0, ut, 5);
            assert(false);
        }
        assert(measure == 0 && i == 0);
        assert(same_value(0, 1, i as int, d as int));
    } else {
        let tol: int = if delta == 0 {
            0
        } else {
            2
        };
        lemma_search_finds(sp + delta, mn, md, measure as int, i as int, d as int, tol);
        assert(cur - base == sp + delta);
        assert(search_measure(sp + delta, bpm, meter) == if ((sp + delta) * md) / mn > u32::MAX {
            u32::MAX as int
        } else {
            ((sp + delta) * md) / mn
        });
        assert(0 * (d as int) == 0 * 1);
    }
}

/// When `cur` lies 3 ms or more from every canonical point (any measure
/// `k`, any canonical subdivision), approximation gives the fallback
/// `(0, 0/1)`; so does every time before the anchor.
pub proof fn lemma_off_grid_falls_back(cur: int, base: int, bpm: Rational, meter: u32)
    requires
        valid_tempo(bpm, meter),
        cur >= base ==> forall|k: int, c: (int, int)|
            0 <= k <= u32::MAX && #[trigger] grid().contains(c) ==> #[trigger] pos_dist(
                cur - base,
                measure_numer(bpm, meter),
                measure_denom(bpm),
                k,
                c,
            ) >= 3,
    ensures
        approx_from(cur, base, bpm, meter) == (0int, 0int, 1int),
{
    if cur >= base {
        let delta = cur - base;
        let mn = measure_numer(bpm, meter);
        let md = measure_denom(bpm);
        let k = search_measure(delta, bpm, meter);
        let w = window(k);
        let g = grid();
        assert(mn > 0) by (nonlinear_arith)
            requires
                mn == 60000 * meter * bpm.denom,
                meter > 0,
                bpm.denom > 0,
        ;
        crate::snapping::lemma_grid_has(8, 0, 0);
        let z = choose|z: int| 0 <= z < g.len() && g[z] == (0int, 1int);
        assert(g.contains((0int, 1int)));
        assert(w.len() > 0);
        lemma_first_min(w, delta, mn, md, k);
        let fi = first_min(w, delta, mn, md, k);
        let c = w[fi];
        assert(k >= 0) by (nonlinear_arith)
            requires
                delta >= 0,
                md > 0,
                mn > 0,
                k == if (delta * md) / mn > u32::MAX {
                    u32::MAX as int
                } else {
                    (delta * md) / mn
                },
        {
            vstd::arithmetic::div_mod::lemma_div_pos_is_pos(delta * md, mn);
        }
        if fi < g.len() {
            assert(c == g[fi]);
            assert(g.contains(c));
            assert(pos_dist(delta, mn, md, k, c) >= 3);
        } else {
            // the start of the next measure is the point 0/1 of that measure
            assert(c == (1int, 1int));
            assert(k * 1 + 1 == (k + 1) * 1 + 0);
            assert(md * 1 == md);
            assert(pos(mn, md, k, c) == pos(mn, md, k + 1, (0int, 1int)));
            assert(pos_dist(delta, mn, md, k + 1, (0int, 1int)) >= 3);
        }
    }
}

} // verus!
