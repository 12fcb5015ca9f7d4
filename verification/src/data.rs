//! The dashboard's data model, the clock-derived header fields, and how a
//! fetch run folds each source's outcome into the cached snapshot.

use vstd::prelude::*;
use crate::clock::{
    fmt_date_line, fmt_hhmm, fmt_month_label, local_at, local_now, local_range, month_abbr, spec_date_line, spec_hhmm, spec_month_label,
    weekday_abbr, weekday_name, LocalStamp,
};
use crate::status::{newest_of, sources_of, SectionStatus, Status};
use crate::text::string_of;

verus! {

/// Cluster-wide rollups (each 0..=100).
#[derive(Copy, Clone, Debug, PartialEq, Eq, Structural)]
pub struct ClusterMetrics {
    pub cpu_pct: u8,
    pub ram_pct: u8,
    pub disk_pct: u8,
}

/// One host of the SYS panel. RAM amounts and load averages are held in
/// fixed point: tenths of a GiB used, whole GiB total, hundredths of load.
#[derive(Clone, Debug)]
pub struct HostData {
    pub name: String,
    pub cpu: u8,
    pub cpu_temp: u8,
    pub ram_pct: u8,
    pub ram_used_dgib: u32,
    pub ram_total_gib: u32,
    pub disk_pct: u8,
    pub uptime_days: u32,
    pub load_centi: [u32; 3],
}

#[derive(Clone, Debug)]
pub struct WeatherDay {
    pub day: String,
    pub hi: i8,
    pub lo: i8,
    pub cond: String,
}

#[derive(Clone, Debug)]
pub struct WeatherHour {
    pub time: String,
    pub temp_c: i8,
    pub cond: String,
}

#[derive(Clone, Debug)]
pub struct WeatherData {
    pub temp_c: i8,
    pub condition: String,
    pub hi: i8,
    pub lo: i8,
    pub hourly: Vec<WeatherHour>,
    pub forecast: Vec<WeatherDay>,
}

#[derive(Clone, Debug)]
pub struct AgendaItem {
    pub time: String,
    pub title: String,
    pub tag: String,
    /// Pre-formatted duration ("30m", "1h", "1h30m"); empty when unknown.
    pub duration: String,
}

/// How an envelope behaves: lump bills, day-to-day spend, or savings goals.
#[derive(Copy, Clone, Debug, PartialEq, Eq, Structural)]
pub enum BudgetClass {
    Fixed,
    Variable,
    Savings,
}

#[derive(Clone, Debug)]
pub struct BudgetCat {
    pub label: String,
    pub spent: u32,
    pub cap: u32,
    /// Envelope balance (carryover + budgeted − spent); negative = overspent.
    pub balance: i32,
    /// Transactions in the category this month.
    pub txns: u32,
    pub class: BudgetClass,
}

#[derive(Clone, Debug)]
pub struct BudgetData {
    pub month_label: String,
    pub spent: u32,
    pub cap: u32,
    pub cats: Vec<BudgetCat>,
}

#[derive(Clone, Debug)]
pub struct Alert {
    pub level: String,
    pub time: String,
    pub message: String,
}

#[derive(Clone, Debug)]
pub struct ShipmentHighlight {
    pub number: String,
    pub remark: String,
    pub status: String,
}

#[derive(Clone, Debug)]
pub struct DashData {
    pub time: String,
    pub date: String,
    pub date_dow: String,
    pub motto: String,
    pub last_sync: String,
    pub next_sync: String,
    pub hosts: Vec<HostData>,
    pub cluster: Option<ClusterMetrics>,
    pub weather: Option<WeatherData>,
    pub agenda: Vec<AgendaItem>,
    pub budget: Option<BudgetData>,
    pub alerts: Vec<Alert>,
    pub shipments_due_today: Vec<ShipmentHighlight>,
    pub status: Status,
}

// ── Mottos ─────────────────────────────────────────────────────────────────

/// Header mottos, cycled by the clock.
pub open spec fn spec_mottos() -> Seq<Seq<char>> {
    seq![
        "STAY PARANOID. STAY ONLINE."@,
        "WORK. SLEEP. DEPLOY."@,
        "THE NETWORK REMEMBERS."@,
        "NEVER TRUST. ALWAYS VERIFY."@,
        "UPDATES ARE MANDATORY."@,
        "UPTIME IS LIFE."@,
        "THE BACKUP IS YOU."@,
        "PRODUCTIVITY IS PATRIOTISM."@,
        "SLEEP IS A LATENCY ISSUE."@,
        "SILENCE IS COMPLIANCE."@,
        "DATA IS DESTINY."@,
    ]
}

/// The mottos, in order.
pub fn mottos() -> (r: Vec<&'static str>)
    ensures
        r@.len() == 11,
        forall|i: int| 0 <= i < 11 ==> (#[trigger] r@[i])@ == spec_mottos()[i],
{
    vec![
        "STAY PARANOID. STAY ONLINE.",
        "WORK. SLEEP. DEPLOY.",
        "THE NETWORK REMEMBERS.",
        "NEVER TRUST. ALWAYS VERIFY.",
        "UPDATES ARE MANDATORY.",
        "UPTIME IS LIFE.",
        "THE BACKUP IS YOU.",
        "PRODUCTIVITY IS PATRIOTISM.",
        "SLEEP IS A LATENCY ISSUE.",
        "SILENCE IS COMPLIANCE.",
        "DATA IS DESTINY.",
    ]
}

/// Absolute value of a timestamp, as `i64::unsigned_abs`.
pub open spec fn abs_ts(ts: i64) -> nat {
    if ts < 0 { (-ts) as nat } else { ts as nat }
}

/// The motto shown at Unix time `ts`: index `|ts| mod 11`.
pub fn pick_motto_at(ts: i64) -> (r: &'static str)
    ensures
        r@ == spec_mottos()[(abs_ts(ts) % 11) as int],
{
    let a: u64 = if ts < 0 {
        if ts == i64::MIN { 9223372036854775808u64 } else { (-ts) as u64 }
    } else {
        ts as u64
    };
    let idx = (a % 11) as usize;
    let ms = mottos();
    ms[idx]
}

/// `chrono::Utc::now().timestamp()`: the current Unix time. Depends on the
/// clock; nothing is stated of the value.
#[verifier::external_body]
pub(crate) fn unix_now() -> (r: i64) {
    chrono::Utc::now().timestamp()
}

/// The motto for the current second.
pub fn pick_motto() -> (r: &'static str)
    ensures
        exists|ts: i64| r@ == spec_mottos()[(abs_ts(ts) % 11) as int],
{
    pick_motto_at(unix_now())
}

// ── Clock-derived header fields ────────────────────────────────────────────

/// Header strings derived from clock readings.
/// `next` is the reading `refresh_secs` after `now`: present whenever that
/// instant fits and lies within `local_range`.
pub open spec fn next_ok(now: LocalStamp, refresh_secs: i64, next: Option<LocalStamp>) -> bool {
    &&& (next matches Some(n) ==> n.ts == now.ts + refresh_secs)
    &&& (i64::MIN <= now.ts + refresh_secs <= i64::MAX && local_range(now.ts + refresh_secs) ==> next is Some)
}

pub open spec fn clock_fields_ok(
    d: &DashData,
    now: LocalStamp,
    next: Option<LocalStamp>,
    last: Option<LocalStamp>,
    unix: i64,
) -> bool {
    &&& d.time@ == spec_hhmm(now.hour, now.minute)
    &&& d.date@ == spec_date_line(now)
    &&& d.date_dow@ == weekday_abbr(now.weekday)
    &&& d.last_sync@ == match last {
        Some(l) => spec_hhmm(l.hour, l.minute),
        None => "--:--"@,
    }
    &&& d.next_sync@ == match next {
        Some(n) => spec_hhmm(n.hour, n.minute),
        None => "--:--"@,
    }
    &&& d.motto@ == spec_mottos()[(abs_ts(unix) % 11) as int]
}

/// Everything but the clock-derived header strings is the same.
pub open spec fn same_content(a: &DashData, b: &DashData) -> bool {
    &&& a.hosts == b.hosts
    &&& a.cluster == b.cluster
    &&& a.weather == b.weather
    &&& a.agenda == b.agenda
    &&& a.budget == b.budget
    &&& a.alerts == b.alerts
    &&& a.shipments_due_today == b.shipments_due_today
    &&& a.status == b.status
}

impl DashData {
    /// Re-stamps the clock-derived fields from given clock readings: `now`
    /// for time and date, `next` for the next sync, `last` for when the data
    /// last came in (`--:--` when unknown), `unix` for the motto.
    pub fn apply_clock(
        &mut self,
        now: &LocalStamp,
        next: Option<LocalStamp>,
        last: Option<LocalStamp>,
        unix: i64,
    )
        ensures
            clock_fields_ok(final(self), *now, next, last, unix),
            same_content(old(self), final(self)),
    {
        self.time = fmt_hhmm(now.hour, now.minute);
        self.date = fmt_date_line(now);
        self.date_dow = string_of(weekday_name(now.weekday));
        proof {
            reveal_strlit("--:--");
        }
        self.last_sync = match last {
            Some(l) => fmt_hhmm(l.hour, l.minute),
            None => string_of("--:--"),
        };
        self.next_sync = match next {
            Some(n) => fmt_hhmm(n.hour, n.minute),
            None => string_of("--:--"),
        };
        self.motto = string_of(pick_motto_at(unix));
    }

    /// Re-stamps time, date, sync markers and motto to the wall clock:
    /// the next sync is `refresh_secs` from now, and the last sync is the
    /// newest successful pull (not the render time).
    pub fn refresh_clock(&mut self, refresh_secs: i64)
        ensures
            same_content(old(self), final(self)),
            exists|now: LocalStamp, next: Option<LocalStamp>, last: Option<LocalStamp>|
                #![trigger clock_fields_ok(final(self), now, next, last, now.ts)]
                clock_fields_ok(final(self), now, next, last, now.ts)
                && next_ok(now, refresh_secs, next)
                && (last matches Some(l) ==> newest_of(sources_of(old(self).status)) == Some(l.ts))
                && (newest_of(sources_of(old(self).status)) is None ==> last is None)
                && (newest_of(sources_of(old(self).status)) matches Some(t) && local_range(t as int) ==> last is Some),
    {
        let now = local_now();
        let next = match now.ts.checked_add(refresh_secs) {
            Some(t) => local_at(t),
            None => None,
        };
        let newest = self.status.newest_ok();
        let last = match newest {
            Some(t) => local_at(t),
            None => None,
        };
        let unix = now.ts;
        self.apply_clock(&now, next, last, unix);
        assert(clock_fields_ok(self, now, next, last, now.ts));
    }
}

// ── Folding a fetch run into the snapshot ──────────────────────────────────

/// Result of pulling one source.
pub enum Outcome<T> {
    /// The source answered with data.
    Fetched(T),
    /// The integration is not configured (opted out).
    NotConfigured,
    /// The pull failed.
    Failed,
}

/// New value and status of a section after a pull: fresh data on success,
/// the empty value for an opted-out source, the previous value (marked as
/// failed, keeping its last success instant) on failure.
pub open spec fn spec_merge<T>(prev: T, prev_st: SectionStatus, o: Outcome<T>, empty: T, now: i64) -> (T, SectionStatus) {
    match o {
        Outcome::Fetched(d) => (d, SectionStatus { configured: true, ok: true, last_ok: Some(now) }),
        Outcome::NotConfigured => (empty, SectionStatus { configured: false, ok: false, last_ok: None }),
        Outcome::Failed => (prev, SectionStatus { configured: true, ok: false, last_ok: prev_st.last_ok }),
    }
}

/// Folds one pull into a section.
pub fn merge_section<T>(prev: T, prev_st: SectionStatus, o: Outcome<T>, empty: T, now: i64) -> (r: (T, SectionStatus))
    ensures
        r == spec_merge(prev, prev_st, o, empty, now),
{
    match o {
        Outcome::Fetched(d) => (d, SectionStatus::fresh(now)),
        Outcome::NotConfigured => (empty, SectionStatus::unconfigured()),
        Outcome::Failed => (prev, SectionStatus::failed(prev_st)),
    }
}

/// A section is shown as degraded after a pull exactly when that pull
/// failed; a successful pull shows its own data, a failed one keeps the
/// previous data and its previous success instant.
pub proof fn law_merge_staleness<T>(prev: T, prev_st: SectionStatus, o: Outcome<T>, empty: T, now: i64)
    ensures
        crate::status::is_degraded(spec_merge(prev, prev_st, o, empty, now).1) <==> o is Failed,
        o is Failed ==> spec_merge(prev, prev_st, o, empty, now).0 == prev
            && spec_merge(prev, prev_st, o, empty, now).1.last_ok == prev_st.last_ok,
        (o matches Outcome::Fetched(d) ==> spec_merge(prev, prev_st, o, empty, now).0 == d
            && spec_merge(prev, prev_st, o, empty, now).1.last_ok == Some(now)),
        o is NotConfigured ==> !spec_merge(prev, prev_st, o, empty, now).1.configured,
{
}

/// A vector-valued section after a pull (see `spec_merge`); an opted-out
/// section is empty.
pub open spec fn vec_merged<T>(prev: Seq<T>, prev_st: SectionStatus, o: Outcome<Vec<T>>, now: i64, r: Seq<T>, rs: SectionStatus) -> bool {
    match o {
        Outcome::Fetched(d) => r == d@ && rs == SectionStatus { configured: true, ok: true, last_ok: Some(now) },
        Outcome::NotConfigured => r.len() == 0 && rs == SectionStatus { configured: false, ok: false, last_ok: None },
        Outcome::Failed => r == prev && rs == SectionStatus { configured: true, ok: false, last_ok: prev_st.last_ok },
    }
}

/// Wraps a fetched value in `Some`.
pub fn lift_some<T>(o: Outcome<T>) -> (r: Outcome<Option<T>>)
    ensures
        match o {
            Outcome::Fetched(d) => r == Outcome::Fetched(Some(d)),
            Outcome::NotConfigured => r is NotConfigured,
            Outcome::Failed => r is Failed,
        },
{
    match o {
        Outcome::Fetched(d) => Outcome::Fetched(Some(d)),
        Outcome::NotConfigured => Outcome::NotConfigured,
        Outcome::Failed => Outcome::Failed,
    }
}

/// Outcome with a fetched value wrapped in `Some`.
pub open spec fn spec_lift<T>(o: Outcome<T>) -> Outcome<Option<T>> {
    match o {
        Outcome::Fetched(d) => Outcome::Fetched(Some(d)),
        Outcome::NotConfigured => Outcome::NotConfigured,
        Outcome::Failed => Outcome::Failed,
    }
}

impl DashData {
    /// Content-free snapshot: every panel empty, no source marked.
    pub fn empty_at(now: &LocalStamp, next: Option<LocalStamp>, unix: i64) -> (r: DashData)
        ensures
            r.hosts@.len() == 0,
            r.cluster is None,
            r.weather is None,
            r.agenda@.len() == 0,
            r.budget is None,
            r.alerts@.len() == 0,
            r.shipments_due_today@.len() == 0,
            forall|i: int| 0 <= i < 7 ==> #[trigger] sources_of(r.status)[i] == (SectionStatus { configured: false, ok: false, last_ok: None }),
            clock_fields_ok(&r, *now, next, None, unix),
    {
        let mut d = DashData {
            time: String::new(),
            date: String::new(),
            date_dow: String::new(),
            motto: String::new(),
            last_sync: String::new(),
            next_sync: String::new(),
            hosts: Vec::new(),
            cluster: None,
            weather: None,
            agenda: Vec::new(),
            budget: None,
            alerts: Vec::new(),
            shipments_due_today: Vec::new(),
            status: Status::default(),
        };
        d.apply_clock(now, next, None, unix);
        d
    }

    /// Content-free placeholder used before the first fetch, stamped with
    /// the wall clock.
    pub fn empty(refresh_secs: i64) -> (r: DashData)
        ensures
            r.hosts@.len() == 0,
            r.cluster is None,
            r.weather is None,
            r.agenda@.len() == 0,
            r.budget is None,
            r.alerts@.len() == 0,
            r.shipments_due_today@.len() == 0,
            forall|i: int| 0 <= i < 7 ==> #[trigger] sources_of(r.status)[i] == (SectionStatus { configured: false, ok: false, last_ok: None }),
            exists|now: LocalStamp, next: Option<LocalStamp>|
                #![trigger clock_fields_ok(&r, now, next, None, now.ts)]
                now.wf() && clock_fields_ok(&r, now, next, None, now.ts) && next_ok(now, refresh_secs, next),
    {
        let now = local_now();
        let next = match now.ts.checked_add(refresh_secs) {
            Some(t) => local_at(t),
            None => None,
        };
        DashData::empty_at(&now, next, now.ts)
    }

    /// Folds the outcome of one fetch run into the previous snapshot: each
    /// section takes fresh data on success, goes empty when opted out, and
    /// keeps its last good values (marked failed) when the pull failed.
    /// Time, date and sync markers are stamped from `now_local`/`next`; the
    /// motto and the shipments are carried over.
    pub fn merge_fetch(
        self,
        hosts: Outcome<Vec<HostData>>,
        cluster: Outcome<ClusterMetrics>,
        weather: Outcome<WeatherData>,
        alerts: Outcome<Vec<Alert>>,
        budget: Outcome<BudgetData>,
        agenda: Outcome<Vec<AgendaItem>>,
        now: i64,
        now_local: &LocalStamp,
        next: Option<LocalStamp>,
    ) -> (r: DashData)
        ensures
            vec_merged(self.hosts@, self.status.hosts, hosts, now, r.hosts@, r.status.hosts),
            (r.cluster, r.status.cluster) == spec_merge(self.cluster, self.status.cluster, spec_lift(cluster), None, now),
            (r.weather, r.status.weather) == spec_merge(self.weather, self.status.weather, spec_lift(weather), None, now),
            vec_merged(self.alerts@, self.status.alerts, alerts, now, r.alerts@, r.status.alerts),
            (r.budget, r.status.budget) == spec_merge(self.budget, self.status.budget, spec_lift(budget), None, now),
            vec_merged(self.agenda@, self.status.agenda, agenda, now, r.agenda@, r.status.agenda),
            r.shipments_due_today == self.shipments_due_today,
            r.status.shipments == self.status.shipments,
            r.motto == self.motto,
            r.time@ == spec_hhmm(now_local.hour, now_local.minute),
            r.date@ == spec_date_line(*now_local),
            r.date_dow@ == weekday_abbr(now_local.weekday),
            r.last_sync@ == spec_hhmm(now_local.hour, now_local.minute),
            r.next_sync@ == match next {
                Some(n) => spec_hhmm(n.hour, n.minute),
                None => "--:--"@,
            },
    {
        let (h, hs) = merge_section(self.hosts, self.status.hosts, hosts, Vec::new(), now);
        let (c, cs) = merge_section(self.cluster, self.status.cluster, lift_some(cluster), None, now);
        let (w, ws) = merge_section(self.weather, self.status.weather, lift_some(weather), None, now);
        let (a, als) = merge_section(self.alerts, self.status.alerts, alerts, Vec::new(), now);
        let (b, bs) = merge_section(self.budget, self.status.budget, lift_some(budget), None, now);
        let (g, gs) = merge_section(self.agenda, self.status.agenda, agenda, Vec::new(), now);
        proof {
            reveal_strlit("--:--");
        }
        DashData {
            time: fmt_hhmm(now_local.hour, now_local.minute),
            date: fmt_date_line(now_local),
            date_dow: string_of(weekday_name(now_local.weekday)),
            motto: self.motto,
            last_sync: fmt_hhmm(now_local.hour, now_local.minute),
            next_sync: match next {
                Some(n) => fmt_hhmm(n.hour, n.minute),
                None => string_of("--:--"),
            },
            hosts: h,
            cluster: c,
            weather: w,
            agenda: g,
            budget: b,
            alerts: a,
            shipments_due_today: self.shipments_due_today,
            status: Status {
                hosts: hs,
                cluster: cs,
                weather: ws,
                alerts: als,
                budget: bs,
                agenda: gs,
                shipments: self.status.shipments,
            },
        }
    }
}

// ── Demo snapshot ──────────────────────────────────────────────────────────

pub type HostView = (Seq<char>, u8, u8, u8, u32, u32, u8, u32, Seq<u32>);

/// A host row as plain values: name, CPU %, temperature, RAM %, tenths of
/// a GiB used, GiB total, disk %, uptime days, load in hundredths.
pub open spec fn host_view(h: HostData) -> HostView {
    (h.name@, h.cpu, h.cpu_temp, h.ram_pct, h.ram_used_dgib, h.ram_total_gib, h.disk_pct, h.uptime_days, h.load_centi@)
}

pub open spec fn demo_hosts() -> Seq<HostView> {
    seq![
        ("asgard"@, 34u8, 58u8, 62u8, 99u32, 16u32, 47u8, 142u32, seq![82u32, 74u32, 69u32]),
        ("muspelheimr"@, 71u8, 71u8, 81u8, 259u32, 32u32, 23u8, 7u32, seq![192u32, 174u32, 155u32]),
        ("niflheimr"@, 12u8, 44u8, 38u8, 30u32, 8u32, 88u8, 203u32, seq![24u32, 18u32, 21u32]),
    ]
}

pub open spec fn hour_view(h: WeatherHour) -> (Seq<char>, i8, Seq<char>) {
    (h.time@, h.temp_c, h.cond@)
}

pub open spec fn day_view(d: WeatherDay) -> (Seq<char>, i8, i8, Seq<char>) {
    (d.day@, d.hi, d.lo, d.cond@)
}

pub open spec fn agenda_view(a: AgendaItem) -> (Seq<char>, Seq<char>, Seq<char>, Seq<char>) {
    (a.time@, a.title@, a.tag@, a.duration@)
}

pub open spec fn cat_row(c: BudgetCat) -> (Seq<char>, u32, u32, i32, u32, BudgetClass) {
    (c.label@, c.spent, c.cap, c.balance, c.txns, c.class)
}

pub open spec fn alert_view(a: Alert) -> (Seq<char>, Seq<char>, Seq<char>) {
    (a.level@, a.time@, a.message@)
}

pub open spec fn shipment_view(s: ShipmentHighlight) -> (Seq<char>, Seq<char>, Seq<char>) {
    (s.number@, s.remark@, s.status@)
}

/// The demo snapshot's content (everything but the clock-derived fields
/// and the month label): three hosts without a cluster rollup, a rainy
/// day, four events, a budget exercising every envelope class, three
/// alerts and one delivery.
pub open spec fn is_demo_content(d: &DashData) -> bool {
    &&& d.hosts@.map_values(|h: HostData| host_view(h)) == demo_hosts()
    &&& d.cluster is None
    &&& d.weather matches Some(w) && {
        &&& w.temp_c == 14 && w.condition@ == "RAIN"@ && w.hi == 17 && w.lo == 9
        &&& w.hourly@.map_values(|h: WeatherHour| hour_view(h)) == seq![
            ("12:00"@, 14i8, "RAIN"@),
            ("15:00"@, 15i8, "CLOUD"@),
            ("18:00"@, 13i8, "RAIN"@),
        ]
        &&& w.forecast@.map_values(|x: WeatherDay| day_view(x)) == seq![
            ("THU"@, 18i8, 10i8, "CLOUD"@),
            ("FRI"@, 21i8, 11i8, "SUN"@),
            ("SAT"@, 19i8, 12i8, "RAIN"@),
            ("SUN"@, 16i8, 9i8, "STORM"@),
        ]
    }
    &&& d.agenda@.map_values(|a: AgendaItem| agenda_view(a)) == seq![
        ("15:30"@, "Standup // k3s infra"@, "WORK"@, "30m"@),
        ("17:00"@, "Replace UPS battery"@, "LAB"@, "1h"@),
        ("19:00"@, "Dinner w/ A."@, "PERS"@, "2h"@),
        ("21:30"@, "Rotate cert-mgr certs"@, "OPS"@, "45m"@),
    ]
    &&& d.budget matches Some(b) && {
        &&& b.spent == 1842 && b.cap == 2600
        &&& b.cats@.map_values(|c: BudgetCat| cat_row(c)) == seq![
            ("Rent"@, 980u32, 980u32, 0i32, 1u32, BudgetClass::Fixed),
            ("Internet"@, 0u32, 50u32, 50i32, 0u32, BudgetClass::Fixed),
            ("Insurance"@, 60u32, 60u32, 40i32, 1u32, BudgetClass::Fixed),
            ("Food"@, 512u32, 500u32, -12i32, 40u32, BudgetClass::Variable),
            ("Hookah"@, 600u32, 800u32, 30i32, 14u32, BudgetClass::Variable),
            ("Cleaning"@, 130u32, 130u32, 5i32, 1u32, BudgetClass::Variable),
            ("Transit"@, 94u32, 200u32, 106i32, 8u32, BudgetClass::Variable),
            ("Misc"@, 46u32, 420u32, 374i32, 3u32, BudgetClass::Variable),
            ("Vacation"@, 0u32, 300u32, 1800i32, 0u32, BudgetClass::Savings),
        ]
    }
    &&& d.alerts@.map_values(|a: Alert| alert_view(a)) == seq![
        ("WRN"@, "14:02"@, "muspelheimr cpu_temp 71C > 65"@),
        ("ERR"@, "13:48"@, "velero backup.daily failed rc=2"@),
        ("WRN"@, "09:14"@, "fritzbox wan p95 142ms"@),
    ]
    &&& d.shipments_due_today@.map_values(|x: ShipmentHighlight| shipment_view(x)) == seq![
        ("00340435063414124778"@, "SeeedStudio - reTerminal"@, "Delivered today"@),
    ]
}

fn host(name: &str, cpu: u8, cpu_temp: u8, ram_pct: u8, ram_used_dgib: u32, ram_total_gib: u32, disk_pct: u8, uptime_days: u32, load_centi: [u32; 3]) -> (h: HostData)
    ensures
        host_view(h) == (name@, cpu, cpu_temp, ram_pct, ram_used_dgib, ram_total_gib, disk_pct, uptime_days, load_centi@),
{
    HostData { name: string_of(name), cpu, cpu_temp, ram_pct, ram_used_dgib, ram_total_gib, disk_pct, uptime_days, load_centi }
}

fn cat(label: &str, spent: u32, cap: u32, balance: i32, txns: u32, class: BudgetClass) -> (c: BudgetCat)
    ensures
        cat_row(c) == (label@, spent, cap, balance, txns, class),
{
    BudgetCat { label: string_of(label), spent, cap, balance, txns, class }
}

fn hour(time: &str, temp_c: i8, cond: &str) -> (h: WeatherHour)
    ensures
        hour_view(h) == (time@, temp_c, cond@),
{
    WeatherHour { time: string_of(time), temp_c, cond: string_of(cond) }
}

fn day(name: &str, hi: i8, lo: i8, cond: &str) -> (d: WeatherDay)
    ensures
        day_view(d) == (name@, hi, lo, cond@),
{
    WeatherDay { day: string_of(name), hi, lo, cond: string_of(cond) }
}

fn event(time: &str, title: &str, tag: &str, duration: &str) -> (a: AgendaItem)
    ensures
        agenda_view(a) == (time@, title@, tag@, duration@),
{
    AgendaItem { time: string_of(time), title: string_of(title), tag: string_of(tag), duration: string_of(duration) }
}

fn alert(level: &str, time: &str, message: &str) -> (a: Alert)
    ensures
        alert_view(a) == (level@, time@, message@),
{
    Alert { level: string_of(level), time: string_of(time), message: string_of(message) }
}

impl DashData {
    /// The demo snapshot as of the clock readings `now` (time, date, last
    /// sync, month label), `next` (next sync) and `unix` (motto); every
    /// source is fresh as of `unix`.
    pub fn mock_at(now: &LocalStamp, next: Option<LocalStamp>, unix: i64) -> (r: DashData)
        ensures
            is_demo_content(&r),
            clock_fields_ok(&r, *now, next, Some(*now), unix),
            r.budget matches Some(b) && b.month_label@ == spec_month_label(*now),
            forall|i: int| 0 <= i < 7 ==> #[trigger] sources_of(r.status)[i] == SectionStatus::fresh_spec(unix),
    {
        let hosts = vec![
            host("asgard", 34, 58, 62, 99, 16, 47, 142, [82, 74, 69]),
            host("muspelheimr", 71, 71, 81, 259, 32, 23, 7, [192, 174, 155]),
            host("niflheimr", 12, 44, 38, 30, 8, 88, 203, [24, 18, 21]),
        ];
        assert(hosts@.map_values(|h: HostData| host_view(h)) =~= demo_hosts());
        let weather = WeatherData {
            temp_c: 14,
            condition: string_of("RAIN"),
            hi: 17,
            lo: 9,
            hourly: vec![hour("12:00", 14, "RAIN"), hour("15:00", 15, "CLOUD"), hour("18:00", 13, "RAIN")],
            forecast: vec![
                day("THU", 18, 10, "CLOUD"),
                day("FRI", 21, 11, "SUN"),
                day("SAT", 19, 12, "RAIN"),
                day("SUN", 16, 9, "STORM"),
            ],
        };
        assert(weather.hourly@.map_values(|h: WeatherHour| hour_view(h)) =~= seq![
            ("12:00"@, 14i8, "RAIN"@),
            ("15:00"@, 15i8, "CLOUD"@),
            ("18:00"@, 13i8, "RAIN"@),
        ]);
        assert(weather.forecast@.map_values(|x: WeatherDay| day_view(x)) =~= seq![
            ("THU"@, 18i8, 10i8, "CLOUD"@),
            ("FRI"@, 21i8, 11i8, "SUN"@),
            ("SAT"@, 19i8, 12i8, "RAIN"@),
            ("SUN"@, 16i8, 9i8, "STORM"@),
        ]);
        let agenda = vec![
            event("15:30", "Standup // k3s infra", "WORK", "30m"),
            event("17:00", "Replace UPS battery", "LAB", "1h"),
            event("19:00", "Dinner w/ A.", "PERS", "2h"),
            event("21:30", "Rotate cert-mgr certs", "OPS", "45m"),
        ];
        assert(agenda@.map_values(|a: AgendaItem| agenda_view(a)) =~= seq![
            ("15:30"@, "Standup // k3s infra"@, "WORK"@, "30m"@),
            ("17:00"@, "Replace UPS battery"@, "LAB"@, "1h"@),
            ("19:00"@, "Dinner w/ A."@, "PERS"@, "2h"@),
            ("21:30"@, "Rotate cert-mgr certs"@, "OPS"@, "45m"@),
        ]);
        let cats = vec![
            cat("Rent", 980, 980, 0, 1, BudgetClass::Fixed),
            cat("Internet", 0, 50, 50, 0, BudgetClass::Fixed),
            cat("Insurance", 60, 60, 40, 1, BudgetClass::Fixed),
            cat("Food", 512, 500, -12, 40, BudgetClass::Variable),
            cat("Hookah", 600, 800, 30, 14, BudgetClass::Variable),
            cat("Cleaning", 130, 130, 5, 1, BudgetClass::Variable),
            cat("Transit", 94, 200, 106, 8, BudgetClass::Variable),
            cat("Misc", 46, 420, 374, 3, BudgetClass::Variable),
            cat("Vacation", 0, 300, 1800, 0, BudgetClass::Savings),
        ];
        assert(cats@.map_values(|c: BudgetCat| cat_row(c)) =~= seq![
            ("Rent"@, 980u32, 980u32, 0i32, 1u32, BudgetClass::Fixed),
            ("Internet"@, 0u32, 50u32, 50i32, 0u32, BudgetClass::Fixed),
            ("Insurance"@, 60u32, 60u32, 40i32, 1u32, BudgetClass::Fixed),
            ("Food"@, 512u32, 500u32, -12i32, 40u32, BudgetClass::Variable),
            ("Hookah"@, 600u32, 800u32, 30i32, 14u32, BudgetClass::Variable),
            ("Cleaning"@, 130u32, 130u32, 5i32, 1u32, BudgetClass::Variable),
            ("Transit"@, 94u32, 200u32, 106i32, 8u32, BudgetClass::Variable),
            ("Misc"@, 46u32, 420u32, 374i32, 3u32, BudgetClass::Variable),
            ("Vacation"@, 0u32, 300u32, 1800i32, 0u32, BudgetClass::Savings),
        ]);
        let alerts = vec![
            alert("WRN", "14:02", "muspelheimr cpu_temp 71C > 65"),
            alert("ERR", "13:48", "velero backup.daily failed rc=2"),
            alert("WRN", "09:14", "fritzbox wan p95 142ms"),
        ];
        assert(alerts@.map_values(|a: Alert| alert_view(a)) =~= seq![
            ("WRN"@, "14:02"@, "muspelheimr cpu_temp 71C > 65"@),
            ("ERR"@, "13:48"@, "velero backup.daily failed rc=2"@),
            ("WRN"@, "09:14"@, "fritzbox wan p95 142ms"@),
        ]);
        let shipments = vec![ShipmentHighlight {
            number: string_of("00340435063414124778"),
            remark: string_of("SeeedStudio - reTerminal"),
            status: string_of("Delivered today"),
        }];
        assert(shipments@.map_values(|x: ShipmentHighlight| shipment_view(x)) =~= seq![
            ("00340435063414124778"@, "SeeedStudio - reTerminal"@, "Delivered today"@),
        ]);
        let mut d = DashData {
            time: String::new(),
            date: String::new(),
            date_dow: String::new(),
            motto: String::new(),
            last_sync: String::new(),
            next_sync: String::new(),
            hosts,
            cluster: None,
            weather: Some(weather),
            agenda,
            budget: Some(BudgetData { month_label: fmt_month_label(now), spent: 1842, cap: 2600, cats }),
            alerts,
            shipments_due_today: shipments,
            status: Status::all_fresh(unix),
        };
        assert(is_demo_content(&d));
        d.apply_clock(now, next, Some(*now), unix);
        d
    }

    /// The demo snapshot stamped with the wall clock, the next sync
    /// `refresh_secs` ahead.
    pub fn mock(refresh_secs: i64) -> (r: DashData)
        ensures
            is_demo_content(&r),
            exists|now: LocalStamp, next: Option<LocalStamp>|
                #![trigger clock_fields_ok(&r, now, next, Some(now), now.ts)]
                now.wf() && clock_fields_ok(&r, now, next, Some(now), now.ts)
                && next_ok(now, refresh_secs, next)
                && (r.budget matches Some(b) && b.month_label@ == spec_month_label(now))
                && forall|i: int| 0 <= i < 7 ==> #[trigger] sources_of(r.status)[i] == SectionStatus::fresh_spec(now.ts),
    {
        let now = local_now();
        let next = match now.ts.checked_add(refresh_secs) {
            Some(t) => local_at(t),
            None => None,
        };
        let r = DashData::mock_at(&now, next, now.ts);
        assert(clock_fields_ok(&r, now, next, Some(now), now.ts));
        r
    }
}

} // verus!
