use stats_melee::dates::{
    autoformat_ymd, civil_from_days, date_histogram, date_to_ordinal, days_from_civil, drag_thumb, fmt_playtime,
    ordinal_domain, ordinal_to_date, parse_iso_ymd, slider_span, slider_thumbs,
};

#[test]
fn parse_iso_ymd_accepts_date_and_datetime() {
    assert_eq!(parse_iso_ymd("2025-04-01"), Some((2025, 4, 1)));
    assert_eq!(parse_iso_ymd("2025-04-01T14:39:10Z"), Some((2025, 4, 1)));
    assert_eq!(parse_iso_ymd("2025-12-31 23:59:59"), Some((2025, 12, 31)));
    // Bad shapes / out-of-range.
    assert_eq!(parse_iso_ymd("2025/04/01"), None);
    assert_eq!(parse_iso_ymd("2025-13-01"), None);
    assert_eq!(parse_iso_ymd("2025-04-00"), None);
    assert_eq!(parse_iso_ymd("nope"), None);
}

#[test]
fn ordinal_round_trips_through_date_string() {
    for s in ["1970-01-01", "2000-02-29", "2024-02-29", "2025-04-01", "2099-12-31"] {
        let ord = date_to_ordinal(s).expect("parse");
        assert_eq!(ordinal_to_date(ord), s, "round-trip failed for {s}");
    }
}

#[test]
fn ordinal_is_monotonic_and_day_steps_are_one() {
    let a = date_to_ordinal("2025-04-01").unwrap();
    let b = date_to_ordinal("2025-04-02").unwrap();
    let c = date_to_ordinal("2025-05-01").unwrap();
    assert_eq!(b - a, 1, "consecutive days differ by 1");
    assert_eq!(c - a, 30, "April has 30 days");
    assert!(a < c, "later dates have larger ordinals");
}

#[test]
fn epoch_is_zero() {
    assert_eq!(date_to_ordinal("1970-01-01"), Some(0));
}

#[test]
fn fmt_playtime_reads_compactly() {
    assert_eq!(fmt_playtime(0), "0m");
    assert_eq!(fmt_playtime(30), "<1m"); // non-empty but sub-minute
    assert_eq!(fmt_playtime(60), "1m");
    assert_eq!(fmt_playtime(45 * 60), "45m");
    assert_eq!(fmt_playtime(3600), "1h");
    assert_eq!(fmt_playtime(3 * 3600), "3h"); // exact hours drop minutes
    assert_eq!(fmt_playtime(12 * 3600 + 34 * 60), "12h 34m");
    assert_eq!(fmt_playtime(-5), "0m"); // negative clamps
}

#[test]
fn autoformat_ymd_masks_progressively_and_forgives_separators() {
    // Progressive masking as the user types digits.
    assert_eq!(autoformat_ymd(""), "");
    assert_eq!(autoformat_ymd("2025"), "2025");
    assert_eq!(autoformat_ymd("20250"), "2025-0");
    assert_eq!(autoformat_ymd("202504"), "2025-04");
    assert_eq!(autoformat_ymd("2025040"), "2025-04-0");
    assert_eq!(autoformat_ymd("20250401"), "2025-04-01");
    // Any separator style collapses to the canonical mask (the mask
    // packs digits positionally, so months/days must be zero-padded).
    assert_eq!(autoformat_ymd("2025/04/01"), "2025-04-01");
    assert_eq!(autoformat_ymd("2025.04.01"), "2025-04-01");
    assert_eq!(autoformat_ymd("2025-04-01"), "2025-04-01");
    // Excess digits past the day are dropped, junk is ignored.
    assert_eq!(autoformat_ymd("2025040199"), "2025-04-01");
    assert_eq!(autoformat_ymd("abc2025"), "2025");
    // The masked output is idempotent (re-running doesn't drift).
    let once = autoformat_ymd("2025-04-01");
    assert_eq!(autoformat_ymd(&once), once);
}

#[test]
fn ordinal_domain_spans_min_to_max() {
    assert_eq!(ordinal_domain(&[]), None);
    assert_eq!(ordinal_domain(&[5]), Some((5, 5)));
    assert_eq!(ordinal_domain(&[5, 1, 9, 3]), Some((1, 9)));
    assert_eq!(ordinal_domain(&[-3, -10, 0]), Some((-10, 0)));
}

#[test]
fn day_numbers_and_dates_invert_each_other() {
    for z in [-800_000, -719_468, -1, 0, 58, 59, 60, 365, 10_957, 11_016, 19_000, 2_932_896] {
        let (y, m, d) = civil_from_days(z);
        assert_eq!(days_from_civil(y, m, d), z);
    }
    assert_eq!(days_from_civil(2000, 3, 1), 11_017);
    assert_eq!(civil_from_days(-1), (1969, 12, 31));
    assert_eq!(civil_from_days(-719_468), (0, 3, 1));
}

#[test]
fn leap_days_stand_between_february_and_march() {
    assert_eq!(days_from_civil(2024, 3, 1) - days_from_civil(2024, 2, 28), 2);
    assert_eq!(days_from_civil(2023, 3, 1) - days_from_civil(2023, 2, 28), 1);
    assert_eq!(days_from_civil(1900, 3, 1) - days_from_civil(1900, 2, 28), 1);
    assert_eq!(days_from_civil(2000, 3, 1) - days_from_civil(2000, 2, 28), 2);
}

#[test]
fn signs_in_a_date_are_read_as_numbers() {
    assert_eq!(parse_iso_ymd("2025-+4-01"), Some((2025, 4, 1)));
    assert_eq!(parse_iso_ymd("-001-04-01"), Some((-1, 4, 1)));
    assert_eq!(parse_iso_ymd("2025--4-01"), None);
    assert_eq!(parse_iso_ymd("20é5-04-01"), None);
}

#[test]
fn years_are_padded_to_four_characters() {
    assert_eq!(ordinal_to_date(days_from_civil(7, 1, 2)), "0007-01-02");
    assert_eq!(ordinal_to_date(days_from_civil(-1, 12, 31)), "-001-12-31");
    assert_eq!(ordinal_to_date(days_from_civil(12345, 1, 1)), "12345-01-01");
}

#[test]
fn a_single_day_gets_a_wider_slider() {
    assert_eq!(slider_span(10, 20), (10, 20));
    assert_eq!(slider_span(10, 10), (3, 17));
}

#[test]
fn thumbs_follow_the_boxes() {
    let min = days_from_civil(2025, 1, 1);
    let max = days_from_civil(2025, 12, 31);
    assert_eq!(slider_thumbs("", "", min, max), (min, max));
    let mid = days_from_civil(2025, 6, 1);
    assert_eq!(slider_thumbs(" 2025-06-01 ", "2026", min, max), (mid, max));
    // Ends beyond the slider are held, and crossed ends swapped.
    assert_eq!(slider_thumbs("2024-06-01", "2027-01-01", min, max), (min, max));
    assert_eq!(slider_thumbs("2025-06-01", "2025-01-01", min, max), (min, mid));
}

#[test]
fn thumbs_do_not_cross() {
    let (mut lo, mut hi) = (3, 8);
    assert!(drag_thumb(&mut lo, &mut hi, true, 20, 0, 10));
    assert_eq!((lo, hi), (8, 8));
    assert!(drag_thumb(&mut lo, &mut hi, false, 99, 0, 10));
    assert_eq!((lo, hi), (8, 10));
    assert!(!drag_thumb(&mut lo, &mut hi, false, 12, 0, 10));
    assert!(drag_thumb(&mut lo, &mut hi, true, -4, 0, 10));
    assert_eq!((lo, hi), (0, 10));
}

#[test]
fn bars_share_the_days_of_a_domain() {
    // One bar for a day, as long as there are few.
    assert_eq!(date_histogram(&[10, 12, 12, 13, 99], 10, 13), vec![1, 0, 2, 1]);
    assert_eq!(date_histogram(&[5], 5, 5), vec![1, 0]);
    let days: Vec<i64> = (0..=1000).collect();
    let bars = date_histogram(&days, 0, 1000);
    assert_eq!(bars.len(), 48);
    assert_eq!(bars.iter().sum::<u32>(), 1001);
    assert_eq!(bars[0], 21);
}
