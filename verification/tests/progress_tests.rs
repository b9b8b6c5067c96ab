use chrono::NaiveDate;
use increment_tracker::progress::expected_progress;

fn date(y: i32, m: u32, d: u32) -> i64 {
    NaiveDate::from_ymd_opt(y, m, d).unwrap().to_epoch_days() as i64
}

fn ratio(r: (i64, i64)) -> f64 {
    r.0 as f64 / r.1 as f64
}

#[test]
fn expected_progress_is_linear_and_clamped() {
    let s = date(2026, 1, 1);
    let e = date(2026, 1, 11);
    assert_eq!(ratio(expected_progress(s, e, date(2025, 12, 1))), 0.0);
    assert!((ratio(expected_progress(s, e, date(2026, 1, 6))) - 0.5).abs() < 1e-9);
    assert_eq!(ratio(expected_progress(s, e, date(2026, 2, 1))), 1.0);
}

#[test]
fn expected_progress_is_an_exact_fraction_of_days() {
    let s = date(2026, 1, 1);
    let e = date(2026, 1, 11);
    assert_eq!(expected_progress(s, e, date(2026, 1, 4)), (3, 10));
    assert_eq!(expected_progress(s, e, date(2026, 1, 1)), (0, 10));
    assert_eq!(expected_progress(s, e, date(2026, 1, 11)), (10, 10));
}

#[test]
fn an_empty_window_is_all_or_nothing() {
    let d = date(2026, 1, 1);
    assert_eq!(expected_progress(d, d, date(2025, 12, 31)), (0, 1));
    assert_eq!(expected_progress(d, d, d), (1, 1));
}
