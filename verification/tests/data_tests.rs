use trmnl_cyberpunk::clock::LocalStamp;
use trmnl_cyberpunk::data::{lift_some, merge_section, pick_motto_at, BudgetClass, DashData, Outcome};
use trmnl_cyberpunk::status::SectionStatus;

fn stamp(hour: u32, minute: u32) -> LocalStamp {
    LocalStamp { ts: 1778167800, year: 2026, month: 5, day: 7, hour, minute, weekday: 3 }
}

#[test]
fn mottos_cycle_by_second() {
    assert_eq!(pick_motto_at(0), "STAY PARANOID. STAY ONLINE.");
    assert_eq!(pick_motto_at(1), "WORK. SLEEP. DEPLOY.");
    assert_eq!(pick_motto_at(11), "STAY PARANOID. STAY ONLINE.");
    assert_eq!(pick_motto_at(-1), "WORK. SLEEP. DEPLOY.");
    assert_eq!(pick_motto_at(10), "DATA IS DESTINY.");
}

#[test]
fn demo_snapshot() {
    let d = DashData::mock_at(&stamp(15, 4), Some(stamp(16, 4)), 3);
    assert_eq!(d.time, "15:04");
    assert_eq!(d.last_sync, "15:04");
    assert_eq!(d.next_sync, "16:04");
    assert_eq!(d.date_dow, "THU");
    assert_eq!(d.date, "07 MAY 2026");
    assert_eq!(d.motto, "NEVER TRUST. ALWAYS VERIFY.");
    assert_eq!(d.hosts.len(), 3);
    assert_eq!(d.hosts[1].name, "muspelheimr");
    assert_eq!(d.hosts[1].ram_used_dgib, 259);
    assert!(d.cluster.is_none());
    let b = d.budget.as_ref().unwrap();
    assert_eq!(b.month_label, "MAY '26");
    assert_eq!((b.spent, b.cap, b.cats.len()), (1842, 2600, 9));
    assert_eq!(b.cats[8].class, BudgetClass::Savings);
    assert_eq!(d.agenda[3].duration, "45m");
    assert_eq!(d.alerts[1].level, "ERR");
    assert_eq!(d.shipments_due_today[0].remark, "SeeedStudio - reTerminal");
    assert_eq!(d.status.hosts, SectionStatus::fresh(3));
}

#[test]
fn empty_snapshot() {
    let d = DashData::empty_at(&stamp(8, 0), None, 0);
    assert!(d.hosts.is_empty() && d.agenda.is_empty() && d.alerts.is_empty());
    assert!(d.weather.is_none() && d.budget.is_none() && d.cluster.is_none());
    assert_eq!(d.next_sync, "--:--");
    assert_eq!(d.last_sync, "--:--");
    assert!(!d.status.weather.configured);
}

#[test]
fn section_merging() {
    let prev = SectionStatus::fresh(100);
    let (v, st) = merge_section(1u8, prev, Outcome::Fetched(2u8), 0u8, 200);
    assert_eq!((v, st), (2, SectionStatus::fresh(200)));
    let (v, st) = merge_section(1u8, prev, Outcome::Failed, 0u8, 200);
    assert_eq!((v, st.ok, st.configured, st.last_ok), (1, false, true, Some(100)));
    let (v, st) = merge_section(1u8, prev, Outcome::NotConfigured, 0u8, 200);
    assert_eq!((v, st), (0, SectionStatus::unconfigured()));
    assert!(matches!(lift_some(Outcome::Fetched(5u8)), Outcome::Fetched(Some(5))));
}

#[test]
fn fetch_run_folds_outcomes() {
    let prev = DashData::mock_at(&stamp(9, 0), None, 0);
    let next = prev.merge_fetch(
        Outcome::Failed,
        Outcome::NotConfigured,
        Outcome::Failed,
        Outcome::Fetched(Vec::new()),
        Outcome::NotConfigured,
        Outcome::Failed,
        500,
        &stamp(10, 15),
        None,
    );
    assert_eq!(next.hosts.len(), 3, "a failed pull keeps the last good hosts");
    assert!(!next.status.hosts.ok);
    assert!(next.cluster.is_none());
    assert!(next.weather.is_some());
    assert!(next.alerts.is_empty());
    assert!(next.status.alerts.ok);
    assert!(next.budget.is_none());
    assert_eq!(next.agenda.len(), 4);
    assert_eq!(next.time, "10:15");
    assert_eq!(next.next_sync, "--:--");
}
