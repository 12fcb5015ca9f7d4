use trmnl_cyberpunk::clock::{days_in_month, fmt_hhmm};

#[test]
fn month_lengths() {
    assert_eq!(days_in_month(2024, 2), 29);
    assert_eq!(days_in_month(2023, 2), 28);
    assert_eq!(days_in_month(2026, 12), 31);
    assert_eq!(days_in_month(2026, 4), 30);
    assert_eq!(days_in_month(2026, 13), 30);
}

#[test]
fn clock_text() {
    assert_eq!(fmt_hhmm(9, 5), "09:05");
    assert_eq!(fmt_hhmm(23, 59), "23:59");
}
