use audpro::civil::civil_from_days;
use audpro::timestamp::format_iso8601;

#[test]
fn civil_dates() {
    assert_eq!(civil_from_days(0), (1970, 1, 1));
    assert_eq!(civil_from_days(-1), (1969, 12, 31));
    assert_eq!(civil_from_days(11016), (2000, 2, 29));
    assert_eq!(civil_from_days(19723), (2024, 1, 1));
    assert_eq!(civil_from_days(2932896), (9999, 12, 31));
    assert_eq!(civil_from_days(-719528), (0, 1, 1));
    assert_eq!(civil_from_days(-719529), (-1, 12, 31));
}

#[test]
fn civil_dates_around_century_leap_rules() {
    // 1900 is not a leap year, 2100 neither; 2000 is.
    assert_eq!(civil_from_days(-25508), (1900, 3, 1));
    assert_eq!(civil_from_days(-25509), (1900, 2, 28));
    assert_eq!(civil_from_days(47541), (2100, 3, 1));
    assert_eq!(civil_from_days(47540), (2100, 2, 28));
}

#[test]
fn formats_instants() {
    assert_eq!(format_iso8601(0, 0), "1970-01-01T00:00:00.000Z");
    assert_eq!(format_iso8601(1767225600, 0), "2026-01-01T00:00:00.000Z");
    assert_eq!(format_iso8601(1767225600 + 3661, 7), "2026-01-01T01:01:01.007Z");
    assert_eq!(format_iso8601(-1, 999), "1969-12-31T23:59:59.999Z");
    assert_eq!(format_iso8601(2932897 * 86400, 0), "10000-01-01T00:00:00.000Z");
    assert_eq!(format_iso8601(-719529 * 86400, 0), "-001-12-31T00:00:00.000Z");
}

#[test]
fn later_instants_have_later_stamps() {
    let instants: [(i64, u32); 8] = [
        (0, 0),
        (0, 1),
        (59, 999),
        (60, 0),
        (3599, 0),
        (86_399, 999),
        (951_782_400, 0),
        (253_402_300_799, 999),
    ];
    for pair in instants.windows(2) {
        let earlier = format_iso8601(pair[0].0, pair[0].1);
        let later = format_iso8601(pair[1].0, pair[1].1);
        assert!(earlier < later, "{earlier} should sort before {later}");
    }
    assert_eq!(format_iso8601(253_402_300_799, 999), "9999-12-31T23:59:59.999Z");
}
