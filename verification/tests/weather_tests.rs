use trmnl_cyberpunk::weather::{dow_from_date, weather_from, wmo_to_cond, DailySeries};

#[test]
fn wmo_codes() {
    assert_eq!(wmo_to_cond(0), "SUN");
    assert_eq!(wmo_to_cond(1), "SUN");
    assert_eq!(wmo_to_cond(3), "CLOUD");
    assert_eq!(wmo_to_cond(45), "FOG");
    assert_eq!(wmo_to_cond(61), "RAIN");
    assert_eq!(wmo_to_cond(73), "SNOW");
    assert_eq!(wmo_to_cond(81), "RAIN");
    assert_eq!(wmo_to_cond(86), "SNOW");
    assert_eq!(wmo_to_cond(96), "STORM");
    assert_eq!(wmo_to_cond(20), "CLOUD");
    assert_eq!(wmo_to_cond(1000), "CLOUD");
}

#[test]
fn weekday_of_date() {
    assert_eq!(dow_from_date("2026-05-07"), "THU");
    assert_eq!(dow_from_date("2024-02-29"), "THU");
    assert_eq!(dow_from_date("not a date"), "---");
}

#[test]
fn forecast_skips_today() {
    let daily = DailySeries {
        times: vec!["2026-05-07".into(), "2026-05-08".into(), "2026-05-09".into()],
        codes: vec![61, 0, 95],
        maxs: vec![17, 21, 19],
        mins: vec![9, 11],
    };
    let w = weather_from(14, 61, &daily);
    assert_eq!(w.temp_c, 14);
    assert_eq!(w.condition, "RAIN");
    assert_eq!((w.hi, w.lo), (17, 9));
    assert_eq!(w.forecast.len(), 2);
    assert_eq!(w.forecast[0].day, "FRI");
    assert_eq!((w.forecast[0].hi, w.forecast[0].lo), (21, 11));
    assert_eq!(w.forecast[0].cond, "SUN");
    assert_eq!(w.forecast[1].day, "SAT");
    assert_eq!((w.forecast[1].hi, w.forecast[1].lo), (19, 0));
    assert_eq!(w.forecast[1].cond, "STORM");
}
