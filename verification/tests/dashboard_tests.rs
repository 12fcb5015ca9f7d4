use trmnl_cyberpunk::clock::LocalStamp;
use trmnl_cyberpunk::dashboard::{
    agenda_rows, clip_to_chars, clip_to_width, draw_page, draw_registration_marks, draw_text, fill_width, footer_state, hero_amount, runway, hi_lo_line, icon_for,
    over_header, pill_colors, ram_label, render, signal_bars, sync_line, sys_cells, text_width, triage, Align, FontId,
    Icon,
};
use trmnl_cyberpunk::data::{BudgetCat, BudgetClass, BudgetData, ClusterMetrics, DashData, HostData};
use trmnl_cyberpunk::render::{Canvas, C};
use trmnl_cyberpunk::status::SectionStatus;

fn stamp() -> LocalStamp {
    LocalStamp { ts: 1778167800, year: 2026, month: 5, day: 10, hour: 17, minute: 30, weekday: 6 }
}

#[test]
fn text_metrics_and_clipping() {
    let w = text_width(FontId::Small, "UNIT");
    assert!(w > 0);
    assert!(text_width(FontId::HugeBold, "TRMNL-01") > w);
    assert_eq!(clip_to_width(FontId::Small, "short", 1000), "short");
    let clipped = clip_to_width(FontId::Small, "A very long calendar event title indeed", 60);
    assert!(clipped.ends_with('…'));
    assert!(clipped.starts_with("A very"));
    assert!(text_width(FontId::Small, &clipped) <= 60);
}

#[test]
fn chars_clip_uppercases() {
    assert_eq!(clip_to_chars("Groceries and more", 12), "GROCERIES AN");
    assert_eq!(clip_to_chars("rent", 12), "RENT");
    assert_eq!(clip_to_chars("straße", 12), "STRASSE");
}

#[test]
fn text_draws_only_in_colour() {
    let mut c = Canvas::new(800, 480);
    draw_text(&mut c, FontId::Body, "HELLO", 10, 30, C::Red, Align::Left);
    let red = c.buf.iter().filter(|&&b| b == 3).count();
    assert!(red > 0);
    assert_eq!(red + c.buf.iter().filter(|&&b| b == 1).count(), c.buf.len());
}

#[test]
fn signal_strength_bars() {
    assert_eq!(signal_bars(-40), 4);
    assert_eq!(signal_bars(-55), 3);
    assert_eq!(signal_bars(-69), 3);
    assert_eq!(signal_bars(-75), 2);
    assert_eq!(signal_bars(-85), 1);
    assert_eq!(signal_bars(-95), 0);
}

#[test]
fn glyph_choice() {
    assert_eq!(icon_for("rain"), Icon::Rain);
    assert_eq!(icon_for("Sunny"), Icon::Sun);
    assert_eq!(icon_for("THUNDERSTORM"), Icon::Storm);
    assert_eq!(icon_for("sleet"), Icon::Snow);
    assert_eq!(icon_for("haze"), Icon::Fog);
    assert_eq!(icon_for("Overcast"), Icon::Cloud);
}

#[test]
fn alert_pills() {
    assert_eq!(pill_colors("ERR"), (C::Red, C::White));
    assert_eq!(pill_colors("WRN"), (C::Yellow, C::Black));
    assert_eq!(pill_colors("INF"), (C::Black, C::White));
}

fn host(name: &str, cpu: u8, temp: u8, ram: u8, disk: u8) -> HostData {
    HostData {
        name: name.into(),
        cpu,
        cpu_temp: temp,
        ram_pct: ram,
        ram_used_dgib: 10,
        ram_total_gib: 8,
        disk_pct: disk,
        uptime_days: 1,
        load_centi: [0, 0, 0],
    }
}

#[test]
fn summary_cells() {
    let hosts = vec![host("a", 34, 58, 62, 47), host("b", 71, 71, 81, 23), host("c", 12, 44, 38, 88)];
    assert_eq!(sys_cells(&hosts, None), [39, 60, 52, 57]);
    let m = ClusterMetrics { cpu_pct: 5, ram_pct: 6, disk_pct: 7 };
    assert_eq!(sys_cells(&hosts, Some(&m)), [5, 6, 7, 57]);
    assert_eq!(sys_cells(&Vec::new(), None), [0, 0, 0, 0]);
}

#[test]
fn meters_and_labels() {
    assert_eq!(fill_width(58, 50), 29);
    assert_eq!(fill_width(58, 150), 58);
    assert_eq!(fill_width(198, 0), 0);
    assert_eq!(ram_label(99, 16), "9.9G/16G");
    assert_eq!(ram_label(5, 8), "0.5G/8G");
    assert_eq!(hi_lo_line(17, -3), "HI 17°  LO -3°");
    assert_eq!(sync_line("10:00", "11:00"), "SYNC 10:00 → 11:00");
}

#[test]
fn agenda_row_budget() {
    assert_eq!(agenda_rows(1, 20, 12), (1, 11));
    assert_eq!(agenda_rows(5, 3, 12), (2, 3));
    assert_eq!(agenda_rows(5, 3, 1), (1, 0));
    assert_eq!(agenda_rows(0, 0, 12), (0, 0));
}

#[test]
fn budget_hero_and_flag_header() {
    assert_eq!(hero_amount(758), "€758");
    assert_eq!(hero_amount(0), "€0");
    assert_eq!(hero_amount(-12), "-€12");
    assert_eq!(over_header(2), "OVER (2)");
}

fn cat(label: &str, spent: u32, cap: u32, balance: i32, class: BudgetClass) -> BudgetCat {
    BudgetCat { label: label.into(), spent, cap, balance, txns: 0, class }
}

#[test]
fn budget_runway() {
    assert_eq!(runway(31, 10, 758), (22, 34));
    assert_eq!(runway(30, 30, -5), (1, 0));
    assert_eq!(runway(28, 1, 280), (28, 10));
}

#[test]
fn budget_triage() {
    let b = BudgetData {
        month_label: "MAY '26".into(),
        spent: 0,
        cap: 0,
        cats: vec![
            cat("Rent", 980, 980, -5, BudgetClass::Fixed),
            cat("Internet", 0, 50, 50, BudgetClass::Fixed),
            cat("Food", 512, 500, -12, BudgetClass::Variable),
            // Overshot this month but still covered by carried-over funds.
            cat("Hookah", 900, 800, 30, BudgetClass::Variable),
            cat("Transit", 94, 200, 106, BudgetClass::Variable),
            cat("Zero", 10, 0, -10, BudgetClass::Variable),
            cat("Vacation", 0, 300, 1800, BudgetClass::Savings),
        ],
    };
    let t = triage(&b);
    assert_eq!(t.flagged, vec![2, 5]);
    assert_eq!((t.on_track_count, t.on_track_left), (3, 0 + 106 + 300));
    assert_eq!((t.fixed_count, t.fixed_remaining), (2, 50));
}

#[test]
fn whole_page_renders() {
    let data = DashData::mock_at(&stamp(), None, 0);
    let c = draw_page(&data, 87, -60, &stamp(), 1778167800);
    assert_eq!((c.w, c.h), (800, 480));
    assert_eq!(c.buf.len(), 800 * 480);
    assert_eq!(c.buf[0], 0, "the unit tab starts at the corner");
    assert_eq!(c.buf[(479 * 800) as usize], 0, "the footer band is black");
    assert!(c.buf.iter().all(|&b| b < 6), "every pixel is one of the six inks");
    let png = render(&data, 87, -60).unwrap();
    assert_eq!(&png[1..4], b"PNG");
    let empty = DashData::empty_at(&stamp(), None, 0);
    assert!(render(&empty, 0, -100).is_ok());
}

#[test]
fn footer_state_word() {
    assert_eq!(footer_state(&Vec::new()), "● ONLINE");
    assert_eq!(footer_state(&vec![("WX", "STALE 2h".to_string())]), "● DEGRADED: WX");
    assert_eq!(
        footer_state(&vec![("WX", "STALE 2h".to_string()), ("OPS", "NO DATA".to_string())]),
        "● DEGRADED: WX OPS"
    );
}

fn red_in(c: &Canvas, x0: u32, x1: u32, y0: u32, y1: u32) -> usize {
    let mut n = 0;
    for y in y0..y1 {
        for x in x0..x1 {
            if c.buf[(y * c.w + x) as usize] == 3 {
                n += 1;
            }
        }
    }
    n
}

#[test]
fn stale_panel_gets_red_marker() {
    let now: i64 = 1778167800;
    let mut data = DashData::mock_at(&stamp(), None, 0);
    data.status = trmnl_cyberpunk::status::Status::all_fresh(now);
    let healthy = draw_page(&data, 87, -60, &stamp(), now);
    // The weather header's right end, where the sequence label sits.
    assert_eq!(red_in(&healthy, 150, 250, 52, 66), 0);
    data.status.weather = SectionStatus::failed(SectionStatus::fresh(now - 720));
    let stale = draw_page(&data, 87, -60, &stamp(), now);
    assert!(red_in(&stale, 150, 250, 52, 66) > 0);
}

#[test]
fn registration_marks_in_the_corners() {
    let mut c = Canvas::new(800, 480);
    draw_registration_marks(&mut c);
    let at = |x: u32, y: u32| c.buf[(y * 800 + x) as usize];
    for (x, y) in [(4, 4), (11, 4), (4, 11), (788, 4), (795, 4), (795, 11), (4, 446), (4, 453), (11, 453), (795, 446), (788, 453), (795, 453)] {
        assert_eq!(at(x, y), 0, "bracket pixel ({x}, {y})");
    }
    for (x, y) in [(5, 5), (12, 4), (787, 4), (794, 5), (5, 452), (794, 452), (400, 240)] {
        assert_eq!(at(x, y), 1, "untouched pixel ({x}, {y})");
    }
    assert_eq!(c.buf.iter().filter(|&&b| b == 0).count(), 4 * 15);
}
