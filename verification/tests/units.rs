use restreamer::measures::{Delay, Status, Volume};

#[test]
fn displays_as_fraction() {
    for (input, expected) in &[
        (1, "0.01"),
        (10, "0.10"),
        (200, "2.00"),
        (107, "1.07"),
        (170, "1.70"),
        (1000, "10.00"),
    ] {
        let actual = Volume::new(*input).unwrap().display_as_fraction();
        assert_eq!(&actual, *expected);
    }
}

#[test]
fn displays_edges_as_fraction() {
    assert_eq!(Volume::new(0).unwrap().display_as_fraction(), "0.00");
    assert_eq!(Volume::new(99).unwrap().display_as_fraction(), "0.99");
    assert_eq!(Volume::new(50).unwrap().display_as_fraction(), "0.50");
    assert_eq!(Volume::origin().display_as_fraction(), "1");
    assert_eq!(Volume::new(101).unwrap().display_as_fraction(), "1.01");
    assert_eq!(Volume::new(999).unwrap().display_as_fraction(), "9.99");
}

#[test]
fn volume_is_within_bounds() {
    assert_eq!(Volume::new(Volume::OFF).unwrap().percents(), 0);
    assert_eq!(Volume::new(Volume::MAX).unwrap().percents(), 1000);
    assert!(Volume::new(1001).is_none());
    assert!(Volume::new(-1i32).is_none());
    assert!(Volume::new(70_000i64).is_none());
    assert!(Volume::new(65_536u32).is_none());
}

#[test]
fn volume_is_original_by_default() {
    assert!(Volume::default().is_origin());
    assert!(Volume::new(Volume::ORIGIN).unwrap().is_origin());
    assert!(!Volume::new(99).unwrap().is_origin());
    assert_eq!(Volume::default(), Volume::origin());
    assert_ne!(Volume::default(), Volume::new(101).unwrap());
}

#[test]
fn delay_of_millis_has_them() {
    for millis in [0, 1, 999, 1000, 3500, i32::MAX] {
        let delay = Delay::from_millis(millis).unwrap();
        assert_eq!(delay.as_millis(), millis);
        assert_eq!(delay.is_zero(), millis == 0);
    }
    for millis in [0u64, 1, 3500, u64::MAX] {
        let delay = Delay::from_millis(millis).unwrap();
        assert_eq!(delay.is_zero(), millis == 0);
        let (secs, nanos) = delay.parts();
        assert_eq!((secs, nanos), (millis / 1000, (millis % 1000) as u32 * 1_000_000));
    }
    assert!(Delay::from_millis(-1).is_none());
    assert!(Delay::from_millis(u128::MAX).is_none());
}

#[test]
fn delay_has_parts() {
    assert_eq!(Delay::from_millis(3500).unwrap().parts(), (3, 500_000_000));
    let delay = Delay::from_parts(2, 1_999_999).unwrap();
    assert_eq!(delay.parts(), (2, 1_999_999));
    assert_eq!(delay.as_millis(), 2001);
    assert!(!Delay::from_parts(0, 1).unwrap().is_zero());
    assert!(Delay::from_parts(0, 1_000_000_000).is_none());
}

#[test]
fn delay_is_zero_by_default() {
    assert!(Delay::default().is_zero());
    assert_eq!(Delay::default(), Delay::from_millis(0).unwrap());
    assert_ne!(Delay::default(), Delay::from_millis(1).unwrap());
}

#[test]
fn status_is_offline_by_default() {
    assert_eq!(Status::default(), Status::Offline);
}
