use trmnl_cyberpunk::ical::{
    format_duration, ical_dtend, ical_dtstart, ical_field, ical_field_value, parse_iso8601_duration_minutes, unfold,
};

const BLOCK: &str = "UID:1\r\nSUMMARY:Team sync\r\nDTSTART;TZID=\"Europe/Berlin\":20260507T153000\r\nDTEND;TZID=Europe/Berlin:20260507T160000\r\nCATEGORIES:Work,Home\r\nDESCRIPTION;LANGUAGE=en:long text\r\n";

#[test]
fn unfolding_joins_continuations() {
    assert_eq!(unfold("SUMMARY:Long\r\n  title\r\nX:1"), "SUMMARY:Long title\nX:1");
    assert_eq!(unfold("A:1\n\tB"), "A:1B");
    assert_eq!(unfold("plain"), "plain");
}

#[test]
fn exact_field_lookup() {
    assert_eq!(ical_field(BLOCK, "SUMMARY"), Some("Team sync".to_string()));
    assert_eq!(ical_field(BLOCK, "DESCRIPTION"), None);
    assert_eq!(ical_field(BLOCK, "LOCATION"), None);
}

#[test]
fn field_value_with_params() {
    assert_eq!(ical_field_value(BLOCK, "DESCRIPTION"), Some("long text".to_string()));
    assert_eq!(ical_field_value(BLOCK, "CATEGORIES"), Some("Work,Home".to_string()));
    assert_eq!(ical_field_value(BLOCK, "RRULE"), None);
}

#[test]
fn dtstart_and_dtend() {
    let d = ical_dtstart(BLOCK).unwrap();
    assert_eq!(d.tzid, Some("Europe/Berlin".to_string()));
    assert_eq!(d.value, "20260507T153000");
    assert_eq!(ical_dtend(BLOCK), Some("20260507T160000".to_string()));
    let utc = ical_dtstart("DTSTART:20260507T100000Z\n").unwrap();
    assert_eq!(utc.tzid, None);
    assert_eq!(utc.value, "20260507T100000Z");
    assert!(ical_dtstart("SUMMARY:x\n").is_none());
}

#[test]
fn iso8601_durations() {
    assert_eq!(parse_iso8601_duration_minutes("PT1H30M"), Some(90));
    assert_eq!(parse_iso8601_duration_minutes("PT45M"), Some(45));
    assert_eq!(parse_iso8601_duration_minutes("P1D"), Some(1440));
    assert_eq!(parse_iso8601_duration_minutes("P1DT2H"), Some(1560));
    assert_eq!(parse_iso8601_duration_minutes(" -PT10M "), Some(10));
    assert_eq!(parse_iso8601_duration_minutes("PT30S"), Some(1));
    assert_eq!(parse_iso8601_duration_minutes("PT29S"), Some(0));
    assert_eq!(parse_iso8601_duration_minutes("PT120S"), Some(2));
    assert_eq!(parse_iso8601_duration_minutes("PT1M30S"), Some(1));
    assert_eq!(parse_iso8601_duration_minutes(""), None);
    assert_eq!(parse_iso8601_duration_minutes("1H"), None);
    assert_eq!(parse_iso8601_duration_minutes("PT5X"), None);
    assert_eq!(parse_iso8601_duration_minutes("PTH"), None);
}

#[test]
fn compact_durations() {
    assert_eq!(format_duration(0), "");
    assert_eq!(format_duration(45), "45m");
    assert_eq!(format_duration(60), "1h");
    assert_eq!(format_duration(75), "1h15m");
    assert_eq!(format_duration(120), "2h");
}

#[test]
fn duration_reads_back_and_formats() {
    for (h, m) in [(0u32, 0u32), (0, 45), (1, 0), (1, 15), (23, 59)] {
        let text = format!("PT{h}H{m}M");
        let total = parse_iso8601_duration_minutes(&text).unwrap();
        assert_eq!(total, h * 60 + m);
        let expected = match (h, m) {
            (0, 0) => String::new(),
            (0, m) => format!("{m}m"),
            (h, 0) => format!("{h}h"),
            (h, m) => format!("{h}h{m}m"),
        };
        assert_eq!(format_duration(total), expected);
    }
}

#[test]
fn duration_products_saturate() {
    assert_eq!(parse_iso8601_duration_minutes("P2982617D"), Some(u32::MAX));
    assert_eq!(parse_iso8601_duration_minutes("PT71582789H"), Some(u32::MAX));
    assert_eq!(parse_iso8601_duration_minutes("P1DT71582789H"), Some(u32::MAX));
    assert_eq!(parse_iso8601_duration_minutes("P2982616D"), Some(2982616 * 1440));
}

#[test]
fn formatted_durations_read_back() {
    for m in [0u32, 1, 45, 59, 60, 75, 120, 1439, 1440, 100_000, u32::MAX] {
        let text = format!("PT{}", format_duration(m).to_uppercase());
        assert_eq!(parse_iso8601_duration_minutes(&text), Some(m));
    }
}
