use deltactl::{VacuumOptions, VacuumOptionsError};

#[test]
fn vacuum_flags_without_retention() {
    let options = VacuumOptions::from_flags(None, false, true, false).unwrap();
    assert!(options.enforce_retention);
    assert!(options.dry_run);
    assert!(!options.print_files);
    assert!(options.retention_period.is_none());
}

#[test]
fn vacuum_flags_no_enforce_retention() {
    let options = VacuumOptions::from_flags(None, true, false, true).unwrap();
    assert!(!options.enforce_retention);
    assert!(!options.dry_run);
    assert!(options.print_files);
}

#[test]
fn vacuum_retention_is_converted() {
    let options = VacuumOptions::from_flags(Some((3600, 500)), false, false, false).unwrap();
    let expected = chrono::Duration::seconds(3600) + chrono::Duration::nanoseconds(500);
    assert_eq!(options.retention_period, Some(expected));
}

#[test]
fn vacuum_retention_at_the_limit() {
    let options =
        VacuumOptions::from_flags(Some((9_223_372_036_854_775, 807_000_000)), false, false, false)
            .unwrap();
    assert_eq!(options.retention_period, Some(chrono::Duration::MAX));
}

#[test]
fn vacuum_retention_past_the_limit() {
    for period in [(9_223_372_036_854_775, 807_000_001), (9_223_372_036_854_776, 0), (u64::MAX, 0)] {
        let err = VacuumOptions::from_flags(Some(period), false, false, false).err();
        assert_eq!(err, Some(VacuumOptionsError::InvalidRetentionPeriod));
    }
    assert_eq!(
        VacuumOptionsError::InvalidRetentionPeriod.message(),
        "invalid retention period"
    );
}
