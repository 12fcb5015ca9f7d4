use trmnl_cyberpunk::alerts::{alert_rows, build_alerts, is_shown, RawAlert};
use trmnl_cyberpunk::budget::{budget_from, GroupLists, RawCategory};
use trmnl_cyberpunk::clock::LocalStamp;
use trmnl_cyberpunk::data::BudgetClass;

fn raw(name: Option<&str>, severity: Option<&str>, instance: Option<&str>) -> RawAlert {
    RawAlert {
        alertname: name.map(|s| s.to_string()),
        severity: severity.map(|s| s.to_string()),
        starts_at: None,
        instance: instance.map(|s| s.to_string()),
        pod: None,
        namespace: None,
        summary: None,
        description: None,
    }
}

fn at(hour: u32, minute: u32) -> Option<LocalStamp> {
    Some(LocalStamp { ts: 0, year: 2026, month: 5, day: 7, hour, minute, weekday: 3 })
}

#[test]
fn which_alerts_show() {
    assert!(is_shown(&raw(Some("HighCpu"), Some("warning"), None)));
    assert!(is_shown(&raw(Some("Down"), Some("critical"), None)));
    assert!(!is_shown(&raw(Some("Watchdog"), Some("critical"), None)));
    assert!(!is_shown(&raw(Some("Info"), Some("info"), None)));
    assert!(!is_shown(&raw(Some("NoSeverity"), None, None)));
}

#[test]
fn rows_errors_first() {
    let alerts = vec![
        raw(Some("DiskFull"), Some("warning"), Some("nas:9100")),
        raw(Some("Watchdog"), Some("none"), None),
        raw(Some("BackupFailed"), Some("error"), None),
        raw(None, Some("critical"), None),
    ];
    let times = vec![at(9, 14), None, at(13, 48), None];
    let rows = alert_rows(&alerts, &times);
    assert_eq!(rows.len(), 3);
    assert_eq!((rows[0].level.as_str(), rows[0].time.as_str(), rows[0].message.as_str()), ("ERR", "13:48", "BackupFailed"));
    assert_eq!((rows[1].level.as_str(), rows[1].time.as_str(), rows[1].message.as_str()), ("ERR", "--:--", "unknown alert"));
    assert_eq!((rows[2].level.as_str(), rows[2].time.as_str(), rows[2].message.as_str()), ("WRN", "09:14", "DiskFull · nas:9100"));
}

#[test]
fn long_messages_are_cut() {
    let long = "x".repeat(80);
    let rows = alert_rows(&vec![raw(Some(&long), Some("warning"), None)], &vec![None]);
    assert_eq!(rows[0].message.chars().count(), 60);
}

#[test]
fn alert_start_times_parse() {
    let mut a = raw(Some("X"), Some("warning"), None);
    a.starts_at = Some("not a time".into());
    let rows = build_alerts(&vec![a]);
    assert_eq!(rows[0].time, "--:--");
    let mut b = raw(Some("Y"), Some("error"), None);
    b.starts_at = Some("2026-05-07T15:30:00Z".into());
    let rows = build_alerts(&vec![b]);
    assert_eq!(rows[0].time.len(), 5);
    assert_ne!(rows[0].time, "--:--");
}

fn cat(id: &str, name: &str, spent: i64, budgeted: i64, balance: i64) -> RawCategory {
    RawCategory {
        id: Some(id.into()),
        name: Some(name.into()),
        group: None,
        income: false,
        spent_cents: spent,
        budgeted_cents: budgeted,
        balance_cents: balance,
    }
}

fn no_lists() -> GroupLists {
    GroupLists { fixed: Vec::new(), variable: Vec::new(), savings: Vec::new() }
}

#[test]
fn budget_envelopes() {
    let cats = vec![
        cat("r", "Rent", -98_000, 98_000, 0),
        cat("f", "Food", -51_249, 50_000, -1_249),
        cat("u", "Unused", 0, 0, 0),
        cat("t", "Transit", -9_450, 20_000, 10_550),
    ];
    let rows: Vec<Option<String>> = vec![Some("r".into()), Some("f".into()), Some("f".into()), Some("f".into()), None];
    let now = LocalStamp { ts: 0, year: 2026, month: 5, day: 7, hour: 0, minute: 0, weekday: 3 };
    let b = budget_from(&cats, &Some(rows), &no_lists(), &now);
    assert_eq!(b.month_label, "MAY '26");
    let labels: Vec<&str> = b.cats.iter().map(|c| c.label.as_str()).collect();
    assert_eq!(labels, vec!["Rent", "Food", "Transit"]);
    assert_eq!((b.cats[0].spent, b.cats[0].cap, b.cats[0].class), (980, 980, BudgetClass::Fixed));
    assert_eq!((b.cats[1].spent, b.cats[1].balance, b.cats[1].txns, b.cats[1].class), (512, -12, 3, BudgetClass::Variable));
    assert_eq!((b.cats[2].spent, b.cats[2].cap), (95, 200));
    assert_eq!((b.spent, b.cap), (980 + 512 + 95, 980 + 500 + 200));
}

#[test]
fn budget_envelopes_largest_cap_first() {
    let cats = vec![
        cat("a", "Transit", -1_000, 20_000, 0),
        cat("b", "Rent", -98_000, 98_000, 0),
        cat("c", "Gym", 0, 20_000, 0),
        cat("d", "Food", -2_000, 50_000, 0),
    ];
    let now = LocalStamp { ts: 0, year: 2026, month: 5, day: 7, hour: 0, minute: 0, weekday: 3 };
    let b = budget_from(&cats, &Some(Vec::new()), &no_lists(), &now);
    let labels: Vec<&str> = b.cats.iter().map(|c| c.label.as_str()).collect();
    assert_eq!(labels, vec!["Rent", "Food", "Transit", "Gym"]);
}

#[test]
fn budget_groups_and_income() {
    let mut rent = cat("r", "Rent", -98_000, 98_000, 0);
    rent.group = Some("Monthly BILLS".into());
    let mut food = cat("f", "Food", -2_000, 50_000, 0);
    food.group = Some("Everyday".into());
    let mut pay = cat("s", "Salary", 0, 300_000, 0);
    pay.income = true;
    let mut trip = cat("v", "Vacation", 0, 30_000, 0);
    trip.group = Some("Savings goals".into());
    let other = cat("o", "Other", -1_000, 10_000, 0);
    let lists = GroupLists {
        fixed: vec!["bills".into()],
        variable: vec!["EVERYDAY".into()],
        savings: vec!["savings".into()],
    };
    let now = LocalStamp { ts: 0, year: 2026, month: 5, day: 7, hour: 0, minute: 0, weekday: 3 };
    let cats = vec![rent, food, pay, trip, other];
    let b = budget_from(&cats, &Some(Vec::new()), &lists, &now);
    let seen: Vec<(&str, BudgetClass)> = b.cats.iter().map(|c| (c.label.as_str(), c.class)).collect();
    assert_eq!(
        seen,
        vec![
            ("Rent", BudgetClass::Fixed),
            ("Food", BudgetClass::Variable),
            ("Vacation", BudgetClass::Savings),
            ("Other", BudgetClass::Fixed),
        ]
    );
    assert_eq!(b.cap, 980 + 500 + 300 + 100, "income is not counted");
    let unread = budget_from(&cats, &None, &lists, &now);
    assert_eq!(unread.cats[3].class, BudgetClass::Variable, "unread rows make the unmatched envelope variable");
}
