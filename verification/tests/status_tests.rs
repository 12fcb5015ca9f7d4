use trmnl_cyberpunk::status::{age_label, SectionStatus, Status};

#[test]
fn age_label_buckets() {
    assert_eq!(age_label(-5), "<1m");
    assert_eq!(age_label(0), "<1m");
    assert_eq!(age_label(59), "<1m");
    assert_eq!(age_label(60), "1m");
    assert_eq!(age_label(3599), "59m");
    assert_eq!(age_label(3600), "1h");
    assert_eq!(age_label(86_399), "23h");
    assert_eq!(age_label(86_400), "1d");
    assert_eq!(age_label(3 * 86_400 + 5), "3d");
}

#[test]
fn marker_for_each_state() {
    let now = 10_000;
    assert_eq!(SectionStatus::unconfigured().marker(now), None);
    assert_eq!(SectionStatus::fresh(now).marker(now), None);
    let failed = SectionStatus::failed(SectionStatus::fresh(now - 720));
    assert_eq!(failed.marker(now), Some("STALE 12m".to_string()));
    let never = SectionStatus::failed(SectionStatus::unconfigured());
    assert_eq!(never.marker(now), Some("NO DATA".to_string()));
    let ancient = SectionStatus { configured: true, ok: false, last_ok: Some(i64::MIN) };
    assert_eq!(ancient.marker(i64::MAX), Some("STALE 106751991167300d".to_string()));
}

#[test]
fn failed_keeps_last_success() {
    let f = SectionStatus::failed(SectionStatus::fresh(42));
    assert!(f.configured);
    assert!(!f.ok);
    assert_eq!(f.last_ok, Some(42));
}

#[test]
fn worse_of_ignores_unconfigured() {
    let bad = SectionStatus::failed(SectionStatus::fresh(5));
    let off = SectionStatus::unconfigured();
    assert_eq!(SectionStatus::worse_of(off, bad), bad);
    assert_eq!(SectionStatus::worse_of(bad, off), bad);
}

#[test]
fn worse_of_prefers_failing_and_oldest() {
    let good = SectionStatus::fresh(100);
    let bad_new = SectionStatus::failed(SectionStatus::fresh(90));
    let bad_old = SectionStatus::failed(SectionStatus::fresh(10));
    let never = SectionStatus::failed(SectionStatus::unconfigured());
    assert_eq!(SectionStatus::worse_of(good, bad_new), bad_new);
    assert_eq!(SectionStatus::worse_of(bad_new, good), bad_new);
    assert_eq!(SectionStatus::worse_of(bad_new, bad_old), bad_old);
    assert_eq!(SectionStatus::worse_of(bad_old, bad_new), bad_old);
    assert_eq!(SectionStatus::worse_of(bad_old, never), never);
    assert_eq!(SectionStatus::worse_of(good, good), good);
}

#[test]
fn panel_rollups() {
    let mut st = Status::all_fresh(50);
    st.shipments = SectionStatus::failed(SectionStatus::fresh(20));
    assert_eq!(st.agenda_panel(), st.shipments);
    assert_eq!(st.sys(), SectionStatus::fresh(50));
    assert_eq!(st.wx(), st.weather);
    assert_eq!(st.budget_panel(), st.budget);
    assert_eq!(st.ops(), st.alerts);
}

#[test]
fn newest_ok_is_latest_success() {
    let mut st = Status::default();
    assert_eq!(st.newest_ok(), None);
    st.hosts = SectionStatus::fresh(30);
    st.budget = SectionStatus::failed(SectionStatus::fresh(70));
    st.weather = SectionStatus::fresh(50);
    assert_eq!(st.newest_ok(), Some(70));
}

#[test]
fn degraded_lists_stale_panels() {
    let mut st = Status::all_fresh(1000);
    assert!(st.degraded(1000).is_empty());
    st.weather = SectionStatus::failed(SectionStatus::fresh(1000 - 7200));
    st.alerts = SectionStatus::failed(SectionStatus::unconfigured());
    let d = st.degraded(1000);
    assert_eq!(d, vec![("WX", "STALE 2h".to_string()), ("OPS", "NO DATA".to_string())]);
}
