use chrono::{Datelike, Local, NaiveDate, Weekday};
use trmnl_cyberpunk::agenda::{expand_between, expand_rrule_for_day, readings_at};
use trmnl_cyberpunk::clock::NaiveStamp;

fn stamp(d: NaiveDate) -> NaiveStamp {
    NaiveStamp { year: d.year(), month: d.month(), day: d.day(), hour: 0, minute: 0, second: 0 }
}

/// Daily recurring meeting that started 2 days ago should appear today.
#[test]
fn rrule_daily_appears_today() {
    let today = Local::now().date_naive();
    let dtstart_value = format!("{}T100000Z", (today - chrono::Duration::days(2)).format("%Y%m%d"));
    let occurrences = expand_rrule_for_day(&dtstart_value, None, "FREQ=DAILY", &stamp(today));
    assert_eq!(occurrences.len(), 1, "expected exactly one occurrence today");
    let o = &occurrences[0];
    assert_eq!((o.year, o.month, o.day), (today.year(), today.month(), today.day()));
}

/// Weekly meeting that should hit today exactly when today is on the
/// recurrence weekday.
#[test]
fn rrule_weekly_byday_today() {
    let today = Local::now().date_naive();
    let day = match today.weekday() {
        Weekday::Mon => "MO",
        Weekday::Tue => "TU",
        Weekday::Wed => "WE",
        Weekday::Thu => "TH",
        Weekday::Fri => "FR",
        Weekday::Sat => "SA",
        Weekday::Sun => "SU",
    };
    let dtstart_value = format!("{}T090000Z", (today - chrono::Duration::days(7)).format("%Y%m%d"));
    let rule = format!("FREQ=WEEKLY;BYDAY={day}");
    let occurrences = expand_rrule_for_day(&dtstart_value, None, &rule, &stamp(today));
    assert!(!occurrences.is_empty(), "expected weekly recurrence to land today");
}

/// Daily series that ended yesterday should NOT appear today.
#[test]
fn rrule_until_excludes_after_end() {
    let today = Local::now().date_naive();
    let yesterday = today - chrono::Duration::days(1);
    let dtstart_value = format!("{}T100000Z", (today - chrono::Duration::days(10)).format("%Y%m%d"));
    let rule = format!("FREQ=DAILY;UNTIL={}T235959Z", yesterday.format("%Y%m%d"));
    let occurrences = expand_rrule_for_day(&dtstart_value, None, &rule, &stamp(today));
    assert!(occurrences.is_empty(), "ended series shouldn't appear");
}

/// A recurrence anchored in a named zone expands in that zone.
#[test]
fn rrule_in_named_zone() {
    let today = Local::now().date_naive();
    let dtstart_value = format!("{}T120000", (today - chrono::Duration::days(3)).format("%Y%m%d"));
    let occurrences = expand_rrule_for_day(&dtstart_value, Some("Europe/Berlin"), "FREQ=DAILY", &stamp(today));
    assert!(occurrences.len() <= 1);
}

/// An unparseable rule yields nothing rather than failing the feed.
#[test]
fn rrule_garbage_rule_is_empty() {
    let today = Local::now().date_naive();
    let occurrences = expand_rrule_for_day("20240101T100000Z", None, "FREQ=NEVER", &stamp(today));
    assert!(occurrences.is_empty());
}

#[test]
fn expansion_between_instants() {
    // 2026-05-05 10:00 UTC, daily; the window covers 6 and 7 May (UTC).
    let text = "DTSTART:20260505T100000Z\nRRULE:FREQ=DAILY";
    let from = 1778025600; // 2026-05-06T00:00:00Z
    let to = 1778198400; // 2026-05-08T00:00:00Z
    let r = expand_between(text, from, to);
    let ts: Vec<i64> = r.iter().map(|l| l.ts).collect();
    assert_eq!(ts, vec![1778061600, 1778148000]);
    assert!(expand_between("DTSTART:20260505T100000Z\nRRULE:FREQ=SOMETIMES", from, to).is_empty());
    let rs = readings_at(&vec![0, 86_400]);
    assert_eq!(rs.iter().map(|l| l.ts).collect::<Vec<_>>(), vec![0, 86_400]);
}
