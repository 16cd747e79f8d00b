use std::cmp::Ordering;

use libosu::{
    assign_parents, in_time_order, timing_point_line, Rational, SampleSet, TimeLocation, TimingError, TimingPoint, TimingPointKind,
};

fn uninherited(time: TimeLocation, bpm: Rational, meter: u32) -> TimingPoint {
    TimingPoint {
        kind: TimingPointKind::Uninherited { bpm, meter },
        time,
        sample_set: SampleSet::Unspecified,
        sample_index: 0,
        volume: 100,
        kiai: false,
    }
}

fn inherited(time: TimeLocation, parent: Option<usize>) -> TimingPoint {
    TimingPoint {
        kind: TimingPointKind::Inherited {
            parent,
            slider_velocity: Rational::from_integer(0),
        },
        time,
        sample_set: SampleSet::Unspecified,
        sample_index: 0,
        volume: 80,
        kiai: false,
    }
}

/// A 200 BPM, meter 4 point at 12345 ms (index 0) and an inherited point one
/// measure later (index 1).
fn test_points() -> Vec<TimingPoint> {
    vec![
        uninherited(TimeLocation::Absolute(12345), Rational::from_integer(200), 4),
        inherited(TimeLocation::Relative(0, 1, Rational::from_integer(0)), Some(0)),
    ]
}

const TP: usize = 0;
const ITP: usize = 1;

fn get_test_data() -> Vec<(TimeLocation, i32)> {
    vec![
        // uninherited timing points
        (TimeLocation::Relative(TP, 0, Rational::new(0, 1)), 12345), // no change from the measure at all
        (TimeLocation::Relative(TP, 1, Rational::new(0, 1)), 13545), // +1 measure (measure is 300ms, times 4 beats)
        (TimeLocation::Relative(TP, 0, Rational::new(1, 4)), 12645), // a single beat
        (TimeLocation::Relative(TP, 0, Rational::new(1, 2)), 12945), // half of a measure
        (TimeLocation::Relative(TP, 0, Rational::new(3, 4)), 13245), // 3 quarter notes
        // inherited timing points
        (TimeLocation::Relative(ITP, 0, Rational::new(0, 1)), 13545), // no change from the measure at all
        (TimeLocation::Relative(ITP, 1, Rational::new(0, 1)), 14745), // +1 measure, same as above
        (TimeLocation::Relative(ITP, 0, Rational::new(1, 4)), 13845), // a single beat
        (TimeLocation::Relative(ITP, 0, Rational::new(1, 2)), 14145), // half of a measure
        (TimeLocation::Relative(ITP, 0, Rational::new(3, 4)), 14445), // 3 quarter notes
    ]
}

#[test]
fn test_into_milliseconds() {
    let points = test_points();
    let test_data = get_test_data();
    for (time, abs) in test_data.iter() {
        assert_eq!(time.into_milliseconds(&points), Ok(*abs));
    }
}

#[test]
fn test_approximate() {
    let points = test_points();
    let test_data = get_test_data();
    for (time, abs) in test_data.iter() {
        let t = TimeLocation::Absolute(*abs);
        match time {
            TimeLocation::Relative(tp, m, f) => {
                let (m2, f2) = t.approximate(&points[*tp], &points).unwrap();
                assert_eq!((*m, *f), (m2, f2));
            }
            _ => panic!("This should never happen."),
        }
    }
}

#[test]
fn approximate_relative_location_against_other_point() {
    let points = test_points();
    // 14145 ms is half a measure after the inherited point, and one and a
    // half measures after the uninherited one
    let loc = TimeLocation::Relative(ITP, 0, Rational::new(1, 2));
    let (m, f) = loc.approximate(&points[TP], &points).unwrap();
    assert_eq!(m, 1);
    assert_eq!((f.numer, f.denom), (1, 2));
}

#[test]
fn approximate_reduces_the_fraction() {
    let points = test_points();
    // 12945 is also 2/4, 3/6, 4/8, ... of the measure: the result is 1/2
    let (m, f) = TimeLocation::Absolute(12945)
        .approximate(&points[TP], &points)
        .unwrap();
    assert_eq!(m, 0);
    assert_eq!((f.numer, f.denom), (1, 2));
}

#[test]
fn tolerance_two_ms_off_still_snaps() {
    let points = test_points();
    for cur in [12643, 12647] {
        let (m, f) = TimeLocation::Absolute(cur)
            .approximate(&points[TP], &points)
            .unwrap();
        assert_eq!(m, 0);
        assert_eq!((f.numer, f.denom), (1, 4));
    }
    let (m, f) = TimeLocation::Absolute(13547)
        .approximate(&points[TP], &points)
        .unwrap();
    assert_eq!(m, 1);
    assert_eq!((f.numer, f.denom), (0, 1));
}

#[test]
fn tolerance_three_ms_off_falls_back() {
    let points = test_points();
    // 303 ms into the measure; the nearest subdivision (1/4, at 300 ms) is 3 ms away
    let (m, f) = TimeLocation::Absolute(12648)
        .approximate(&points[TP], &points)
        .unwrap();
    assert_eq!(m, 0);
    assert_eq!((f.numer, f.denom), (0, 1));
    // 13545 + 300 + 13: far from every subdivision of the second measure
    let (m, f) = TimeLocation::Absolute(13858)
        .approximate(&points[TP], &points)
        .unwrap();
    assert_eq!(m, 0);
    assert_eq!((f.numer, f.denom), (0, 1));
}

#[test]
fn approximate_just_before_anchor() {
    let points = test_points();
    let (m, f) = TimeLocation::Absolute(12344)
        .approximate(&points[TP], &points)
        .unwrap();
    assert_eq!(m, 0);
    assert_eq!((f.numer, f.denom), (0, 1));
    // more than a whole measure before the anchor: far from every
    // canonical point, so the fallback
    let (m, f) = TimeLocation::Absolute(10000)
        .approximate(&points[TP], &points)
        .unwrap();
    assert_eq!(m, 0);
    assert_eq!((f.numer, f.denom), (0, 1));
}

#[test]
fn round_trip_on_the_grid() {
    let points = test_points();
    let denoms = [1u32, 2, 3, 4, 6, 8, 12, 16];
    for d in denoms {
        for i in 0..d {
            for measure in [0u32, 1, 7] {
                let loc = TimeLocation::Relative(TP, measure, Rational::new_raw(i, d));
                let ms = loc.into_milliseconds(&points).unwrap();
                let (m, f) = TimeLocation::Absolute(ms)
                    .approximate(&points[TP], &points)
                    .unwrap();
                assert_eq!(m, measure);
                assert_eq!(f, Rational::new_raw(i, d));
            }
        }
    }
}

#[test]
fn fractional_bpm_is_exact() {
    // 180 BPM, meter 4: a measure lasts 4000/3 ms
    let points = vec![uninherited(TimeLocation::Absolute(0), Rational::new(180, 1), 4)];
    let third = TimeLocation::Relative(0, 0, Rational::new(1, 3));
    assert_eq!(third.into_milliseconds(&points), Ok(444));
    let two = TimeLocation::Relative(0, 2, Rational::new(0, 1));
    assert_eq!(two.into_milliseconds(&points), Ok(2666));
    // 7/2 BPM, meter 1: a measure lasts 120000/7 ms
    let slow = vec![uninherited(TimeLocation::Absolute(-5), Rational::new(7, 2), 1)];
    let one = TimeLocation::Relative(0, 1, Rational::new(0, 1));
    assert_eq!(one.into_milliseconds(&slow), Ok(-5 + 17142));
}

#[test]
fn absolute_is_identity() {
    let points: Vec<TimingPoint> = Vec::new();
    assert_eq!(TimeLocation::Absolute(-250).into_milliseconds(&points), Ok(-250));
}

#[test]
fn ancestor_tempo_of_inherited_point() {
    let mut points = test_points();
    points.push(inherited(TimeLocation::Absolute(14000), Some(1)));
    assert_eq!(points[1].get_bpm(&points), Ok(Rational::new(200, 1)));
    assert_eq!(points[1].get_meter(&points), Ok(4));
    // two hops: 2 -> 1 -> 0
    assert_eq!(points[2].get_meter(&points), Ok(4));
    let a = points[2].get_uninherited_ancestor(&points).unwrap();
    assert!(matches!(a.time, TimeLocation::Absolute(12345)));
}

#[test]
fn broken_ancestor_chains_fail() {
    let points = vec![
        inherited(TimeLocation::Absolute(0), None),
        inherited(TimeLocation::Absolute(0), Some(1)),
        inherited(TimeLocation::Absolute(0), Some(9)),
    ];
    assert_eq!(points[0].get_bpm(&points), Err(TimingError::MissingAncestor));
    assert_eq!(points[1].get_meter(&points), Err(TimingError::CyclicReference));
    assert_eq!(points[2].get_bpm(&points), Err(TimingError::UnknownPoint));
}

#[test]
fn conversion_errors() {
    let points = vec![
        uninherited(TimeLocation::Absolute(0), Rational::new(120, 1), 4),
        uninherited(TimeLocation::Absolute(0), Rational::new_raw(0, 1), 4),
        uninherited(TimeLocation::Relative(2, 0, Rational::new(0, 1)), Rational::new(120, 1), 4),
    ];
    let bad_offset = TimeLocation::Relative(0, 0, Rational::new_raw(1, 0));
    assert_eq!(bad_offset.into_milliseconds(&points), Err(TimingError::InvalidOffset));
    let bad_tempo = TimeLocation::Relative(1, 0, Rational::new(0, 1));
    assert_eq!(bad_tempo.into_milliseconds(&points), Err(TimingError::InvalidTempo));
    let unknown = TimeLocation::Relative(5, 0, Rational::new(0, 1));
    assert_eq!(unknown.into_milliseconds(&points), Err(TimingError::UnknownPoint));
    let cyclic = TimeLocation::Relative(2, 0, Rational::new(0, 1));
    assert_eq!(cyclic.into_milliseconds(&points), Err(TimingError::CyclicReference));
    let far = TimeLocation::Relative(0, u32::MAX, Rational::new(0, 1));
    assert_eq!(far.into_milliseconds(&points), Err(TimingError::OutOfRange));
    let huge = vec![uninherited(
        TimeLocation::Absolute(0),
        Rational::new_raw(1, u32::MAX),
        u32::MAX,
    )];
    let overflow = TimeLocation::Relative(0, u32::MAX, Rational::new_raw(u32::MAX - 1, u32::MAX));
    assert_eq!(overflow.into_milliseconds(&huge), Err(TimingError::OutOfRange));
    // 2000 ms per measure: 1073742 measures pass i32::MAX
    let edge = TimeLocation::Relative(0, 1073742, Rational::new(0, 1));
    assert_eq!(edge.into_milliseconds(&points), Err(TimingError::OutOfRange));
    let near = TimeLocation::Relative(0, 1073741, Rational::new(0, 1));
    assert_eq!(near.into_milliseconds(&points), Ok(2147482000));
    let fits = TimeLocation::Relative(0, 1073741, Rational::new_raw(0, 1));
    let points_low = vec![uninherited(TimeLocation::Absolute(-2147483648), Rational::new(120, 1), 4)];
    assert_eq!(fits.into_milliseconds(&points_low), Ok(-2147483648 + 2147482000));
}

#[test]
fn ordering_follows_milliseconds() {
    let points = test_points();
    let a = TimeLocation::Relative(TP, 1, Rational::new(0, 1));
    let b = TimeLocation::Absolute(13545);
    let c = TimeLocation::Relative(ITP, 0, Rational::new(1, 2));
    assert_eq!(a.eq(&b, &points), Ok(true));
    assert_eq!(a.cmp(&b, &points), Ok(Ordering::Equal));
    assert_eq!(b.cmp(&c, &points), Ok(Ordering::Less));
    assert_eq!(c.cmp(&a, &points), Ok(Ordering::Greater));
    assert_eq!(a.eq(&c, &points), Ok(false));
    // timing points compare by time alone
    let other = uninherited(TimeLocation::Absolute(13545), Rational::new(90, 1), 3);
    assert_eq!(points[ITP].eq(&other, &points), Ok(true));
    assert_eq!(points[TP].cmp(&other, &points), Ok(Ordering::Less));
    let broken = TimeLocation::Relative(7, 0, Rational::new(0, 1));
    assert_eq!(a.cmp(&broken, &points), Err(TimingError::UnknownPoint));
}

#[test]
fn assembly_links_nearest_preceding_uninherited() {
    let mut points = vec![
        inherited(TimeLocation::Absolute(0), Some(3)),
        uninherited(TimeLocation::Absolute(100), Rational::new(120, 1), 4),
        inherited(TimeLocation::Absolute(200), None),
        uninherited(TimeLocation::Absolute(300), Rational::new(150, 1), 3),
        inherited(TimeLocation::Absolute(400), None),
        inherited(TimeLocation::Absolute(500), Some(0)),
    ];
    assign_parents(&mut points);
    let parents: Vec<Option<usize>> = points
        .iter()
        .map(|p| match p.kind {
            TimingPointKind::Inherited { parent, .. } => parent,
            TimingPointKind::Uninherited { .. } => Some(usize::MAX),
        })
        .collect();
    assert_eq!(
        parents,
        vec![None, Some(usize::MAX), Some(1), Some(usize::MAX), Some(3), Some(3)]
    );
    assert_eq!(points[5].get_meter(&points), Ok(3));
    assert_eq!(points[2].get_bpm(&points), Ok(Rational::new(120, 1)));
}

#[test]
fn collection_time_order() {
    let points = test_points();
    assert_eq!(in_time_order(&points), Ok(true));
    let mut later_first = test_points();
    later_first.push(inherited(TimeLocation::Absolute(13000), Some(0)));
    assert_eq!(in_time_order(&later_first), Ok(false));
    let mut broken = test_points();
    broken.push(inherited(TimeLocation::Relative(9, 0, Rational::new(0, 1)), Some(0)));
    assert_eq!(in_time_order(&broken), Err(TimingError::UnknownPoint));
    let empty: Vec<TimingPoint> = Vec::new();
    assert_eq!(in_time_order(&empty), Ok(true));
}

#[test]
fn two_ms_before_a_measure_start_snaps_to_it() {
    let points = test_points();
    // 13543 is 2 ms before measure 1 starts at 13545
    let (m, f) = TimeLocation::Absolute(13543)
        .approximate(&points[TP], &points)
        .unwrap();
    assert_eq!(m, 1);
    assert_eq!((f.numer, f.denom), (0, 1));
    let (m, f) = TimeLocation::Absolute(14744)
        .approximate(&points[TP], &points)
        .unwrap();
    assert_eq!(m, 2);
    assert_eq!((f.numer, f.denom), (0, 1));
    // before the first measure the anchor itself is near
    let (m, f) = TimeLocation::Absolute(12343)
        .approximate(&points[TP], &points)
        .unwrap();
    assert_eq!(m, 0);
    assert_eq!((f.numer, f.denom), (0, 1));
}

#[test]
fn round_trip_at_170_bpm() {
    let points = vec![uninherited(TimeLocation::Absolute(0), Rational::new(170, 1), 4)];
    let three = TimeLocation::Relative(0, 3, Rational::new(0, 1));
    assert_eq!(three.into_milliseconds(&points), Ok(4235));
    let (m, f) = TimeLocation::Absolute(4235)
        .approximate(&points[0], &points)
        .unwrap();
    assert_eq!(m, 3);
    assert_eq!((f.numer, f.denom), (0, 1));
}

#[test]
fn round_trip_at_uneven_tempos() {
    let tempos = [(Rational::new(170, 1), 4), (Rational::new(7, 2), 1), (Rational::new(333, 2), 3)];
    for (bpm, meter) in tempos {
        let points = vec![uninherited(TimeLocation::Absolute(-40), bpm, meter)];
        for d in [1u32, 2, 3, 4, 6, 8, 12, 16] {
            for i in 0..d {
                for measure in [0u32, 1, 2, 3, 11] {
                    let loc = TimeLocation::Relative(0, measure, Rational::new_raw(i, d));
                    let ms = loc.into_milliseconds(&points).unwrap();
                    let (m, f) = TimeLocation::Absolute(ms)
                        .approximate(&points[0], &points)
                        .unwrap();
                    assert_eq!(m, measure);
                    assert_eq!(f, Rational::new_raw(i, d));
                }
            }
        }
    }
}

#[test]
fn timing_line_fields() {
    let mut points = test_points();
    points[ITP].kind = TimingPointKind::Inherited {
        parent: Some(TP),
        slider_velocity: Rational::new(3, 2),
    };
    points[ITP].kiai = true;
    points[ITP].sample_set = SampleSet::Soft;
    let u = timing_point_line(&points[TP], &points).unwrap();
    assert_eq!(
        (u.time, u.beat_numer, u.beat_denom, u.beat_negative, u.meter),
        (12345, 60000, 200, false, 4)
    );
    assert_eq!((u.sample_set, u.sample_index, u.volume, u.uninherited, u.kiai), (0, 0, 100, 1, 0));
    let i = timing_point_line(&points[ITP], &points).unwrap();
    assert_eq!(
        (i.time, i.beat_numer, i.beat_denom, i.beat_negative, i.meter),
        (13545, 200, 3, true, 0)
    );
    assert_eq!((i.sample_set, i.sample_index, i.volume, i.uninherited, i.kiai), (2, 0, 80, 0, 1));
}

#[test]
fn timing_line_errors() {
    let points = vec![
        uninherited(TimeLocation::Absolute(0), Rational::new_raw(0, 1), 4),
        uninherited(TimeLocation::Relative(7, 0, Rational::new(0, 1)), Rational::new(120, 1), 4),
    ];
    assert_eq!(timing_point_line(&points[0], &points), Err(TimingError::InvalidTempo));
    assert_eq!(timing_point_line(&points[1], &points), Err(TimingError::UnknownPoint));
}

#[test]
fn longer_broken_chains_fail() {
    let points = vec![
        inherited(TimeLocation::Absolute(0), Some(1)),
        inherited(TimeLocation::Absolute(0), Some(0)),
        inherited(TimeLocation::Absolute(0), Some(3)),
        inherited(TimeLocation::Absolute(0), Some(4)),
        inherited(TimeLocation::Absolute(0), None),
        inherited(TimeLocation::Absolute(0), Some(6)),
        inherited(TimeLocation::Absolute(0), Some(7)),
        uninherited(TimeLocation::Absolute(0), Rational::new(90, 1), 7),
    ];
    assert_eq!(points[0].get_bpm(&points), Err(TimingError::CyclicReference));
    assert_eq!(points[1].get_meter(&points), Err(TimingError::CyclicReference));
    assert_eq!(points[2].get_meter(&points), Err(TimingError::MissingAncestor));
    assert_eq!(points[5].get_meter(&points), Ok(7));
    assert_eq!(points[5].get_bpm(&points), Ok(Rational::new(90, 1)));
}
