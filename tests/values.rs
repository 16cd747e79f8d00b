use libosu::{Rational, SampleInfo, SampleSet, UserLookup};

#[test]
fn rational_new_reduces() {
    let r = Rational::new(6, 8);
    assert_eq!((r.numer, r.denom), (3, 4));
    let z = Rational::new(0, 7);
    assert_eq!((z.numer, z.denom), (0, 1));
    let w = Rational::new(9, 9);
    assert_eq!((w.numer, w.denom), (1, 1));
}

#[test]
fn rational_equality_is_by_value() {
    assert_eq!(Rational::new_raw(2, 4), Rational::new_raw(1, 2));
    assert_ne!(Rational::new_raw(1, 3), Rational::new_raw(1, 2));
    assert_eq!(Rational::from_integer(0), Rational::new_raw(0, 5));
}

#[test]
fn sample_set_codes() {
    assert_eq!(SampleSet::from_u32(0), Some(SampleSet::Unspecified));
    assert_eq!(SampleSet::from_u32(2), Some(SampleSet::Soft));
    assert_eq!(SampleSet::from_u32(3), Some(SampleSet::Drum));
    assert_eq!(SampleSet::from_u32(4), None);
    assert_eq!(SampleSet::Normal.code(), 1);
}

#[test]
fn sample_info_default() {
    let s = SampleInfo::default();
    assert_eq!(s.sample_set, SampleSet::Unspecified);
    assert_eq!(s.addition_set, SampleSet::Unspecified);
    assert_eq!(s.custom_index, 0);
    assert_eq!(s.sample_volume, 0);
    assert!(s.filename.is_none());
}

#[test]
fn user_lookup_from() {
    assert!(matches!(UserLookup::from(42u32), UserLookup::Id(42)));
    match UserLookup::from("cookiezi") {
        UserLookup::Name(n) => assert_eq!(n, "cookiezi"),
        UserLookup::Id(_) => panic!("expected a name"),
    }
}

#[test]
fn user_lookup_to_string() {
    assert_eq!(UserLookup::Id(124493).to_string(), "124493");
    assert_eq!(UserLookup::Id(0).to_string(), "0");
    assert_eq!(UserLookup::from("peppy").to_string(), "peppy");
}
