use chrono::{Datelike, Local};
use trmnl_cyberpunk::agenda::{
    agenda_items, compute_duration_minutes, event_tag, finalize_agenda, minutes_between, parse_ical_dtstart,
    parse_ical_events, vevent_blocks,
};
use trmnl_cyberpunk::clock::NaiveStamp;
use trmnl_cyberpunk::data::AgendaItem;

fn today() -> NaiveStamp {
    let d = Local::now().date_naive();
    NaiveStamp { year: d.year(), month: d.month(), day: d.day(), hour: 0, minute: 0, second: 0 }
}

fn ymd() -> String {
    Local::now().date_naive().format("%Y%m%d").to_string()
}

fn item(time: &str, title: &str) -> AgendaItem {
    AgendaItem { time: time.into(), title: title.into(), tag: "PERS".into(), duration: String::new() }
}

#[test]
fn start_values() {
    let (utc, all_day) = parse_ical_dtstart("20260507T153000Z", None).unwrap();
    assert_eq!(utc.ts, 1778167800);
    assert!(!all_day);
    let (berlin, _) = parse_ical_dtstart(" 20260507T153000 ", Some("Europe/Berlin")).unwrap();
    assert_eq!(berlin.ts, 1778167800 - 7200);
    let (_, date_only) = parse_ical_dtstart("20260507", None).unwrap();
    assert!(date_only);
    assert!(parse_ical_dtstart("garbage", None).is_none());
    assert!(parse_ical_dtstart("2026T", None).is_none());
}

#[test]
fn durations() {
    assert_eq!(minutes_between(0, 5400), Some(90));
    assert_eq!(minutes_between(100, 100), None);
    assert_eq!(minutes_between(0, 59), Some(0));
    assert_eq!(compute_duration_minutes("PT30M", "20260507T100000Z", "", None), Some(30));
    assert_eq!(compute_duration_minutes("", "20260507T100000Z", "20260507T113000Z", None), Some(90));
    assert_eq!(compute_duration_minutes("", "20260507T100000Z", "", None), None);
    assert_eq!(compute_duration_minutes("", "20260507T113000Z", "20260507T100000Z", None), None);
}

#[test]
fn event_blocks() {
    let feed = "BEGIN:VCALENDAR\nBEGIN:VEVENT\nSUMMARY:One\nEND:VEVENT\nBEGIN:VEVENT\nSUMMARY:Two\nEND:VEVENT\nEND:VCALENDAR\n";
    let blocks = vevent_blocks(feed);
    assert_eq!(blocks, vec!["\nSUMMARY:One\n".to_string(), "\nSUMMARY:Two\n".to_string()]);
    assert!(vevent_blocks("BEGIN:VEVENT\nSUMMARY:open").is_empty());
}

#[test]
fn tags_from_categories() {
    assert_eq!(event_tag("work, home"), "WORK");
    assert_eq!(event_tag("  lab "), "LAB");
    assert_eq!(event_tag("Personal"), "PERS");
    assert_eq!(event_tag(""), "PERS");
    assert_eq!(event_tag("birthdays"), "BIRT");
}

#[test]
fn todays_events_from_a_feed() {
    let feed = format!(
        "BEGIN:VEVENT\r\nSUMMARY:Standup\r\nCATEGORIES:Work\r\nDTSTART:{d}T090000\r\nDURATION:PT30M\r\nEND:VEVENT\r\n\
         BEGIN:VEVENT\r\nSUMMARY:Holiday\r\nDTSTART;VALUE=DATE:{d}\r\nEND:VEVENT\r\n\
         BEGIN:VEVENT\r\nSUMMARY:Old\r\nDTSTART:20000101T090000\r\nEND:VEVENT\r\n\
         BEGIN:VEVENT\r\nDTSTART:{d}T100000\r\nEND:VEVENT\r\n",
        d = ymd()
    );
    let items = parse_ical_events(&feed, &today());
    assert_eq!(items.len(), 2);
    assert_eq!((items[0].time.as_str(), items[0].title.as_str()), ("09:00", "Standup"));
    assert_eq!((items[0].tag.as_str(), items[0].duration.as_str()), ("WORK", "30m"));
    assert_eq!((items[1].time.as_str(), items[1].title.as_str()), ("ALL", "Holiday"));
    assert_eq!((items[1].tag.as_str(), items[1].duration.as_str()), ("PERS", ""));
}

#[test]
fn merged_agenda_sorted_deduped_capped() {
    let items = vec![item("10:00", "B"), item("09:00", "Z"), item("10:00", "A"), item("09:00", "Z"), item("ALL", "x")];
    let out = finalize_agenda(items);
    let keys: Vec<(&str, &str)> = out.iter().map(|a| (a.time.as_str(), a.title.as_str())).collect();
    assert_eq!(keys, vec![("09:00", "Z"), ("10:00", "A"), ("10:00", "B"), ("ALL", "x")]);
    let many: Vec<AgendaItem> = (0..30).map(|i| item(&format!("{:02}:00", i % 24), &format!("e{i}"))).collect();
    assert_eq!(finalize_agenda(many).len(), 20);
}

#[test]
fn agenda_across_feeds() {
    let a = format!("BEGIN:VEVENT\nSUMMARY:Gym\nDTSTART:{}T180000\nEND:VEVENT\n", ymd());
    let b = format!("BEGIN:VEVENT\nSUMMARY:Gym\nDTSTART:{}T180000\nEND:VEVENT\nBEGIN:VEVENT\nSUMMARY:Call\nDTSTART:{}T080000\nEND:VEVENT\n", ymd(), ymd());
    let items = agenda_items(&vec![a, b], &today());
    let keys: Vec<(&str, &str)> = items.iter().map(|a| (a.time.as_str(), a.title.as_str())).collect();
    assert_eq!(keys, vec![("08:00", "Call"), ("18:00", "Gym")]);
}
