//! Wall-clock readings in the machine's local time zone, as plain values,
//! and the fixed-width formats the panel prints them in.

use vstd::prelude::*;
use chrono::{Datelike, TimeZone, Timelike};
use crate::text::{dec, dec_int, dec_pad, push_dec_pad, push_int, push_str, string_from_chars};

verus! {

/// A local civil time reading with the instant it stands for.
#[derive(Copy, Clone, Debug, PartialEq, Eq, Structural)]
pub struct LocalStamp {
    /// Unix timestamp (seconds).
    pub ts: i64,
    pub year: i32,
    /// 1..=12.
    pub month: u32,
    /// 1..=31.
    pub day: u32,
    /// 0..=23.
    pub hour: u32,
    /// 0..=59.
    pub minute: u32,
    /// Days since Monday, 0..=6.
    pub weekday: u32,
}

impl LocalStamp {
    pub open spec fn wf(&self) -> bool {
        &&& 1 <= self.month <= 12
        &&& 1 <= self.day <= 31
        &&& self.hour < 24
        &&& self.minute < 60
        &&& self.weekday < 7
    }
}

/// `chrono::Local::now()`: the current time in the machine's time zone.
/// Depends on the clock and the environment: only the ranges of the fields
/// are stated (the year within chrono's representable UTC dates, widened
/// by one for a local offset across the last or first day).
#[verifier::external_body]
pub(crate) fn local_now() -> (r: LocalStamp)
    ensures
        r.wf(),
        -262_144 <= r.year <= 262_143,
{
    let dt = chrono::Local::now();
    LocalStamp {
        ts: dt.timestamp(),
        year: dt.year(),
        month: dt.month(),
        day: dt.day(),
        hour: dt.hour(),
        minute: dt.minute(),
        weekday: dt.weekday().num_days_from_monday(),
    }
}

/// Instants well inside chrono's representable dates (about ±253,000
/// years around the epoch).
pub open spec fn local_range(ts: int) -> bool {
    -8_000_000_000_000 <= ts <= 8_000_000_000_000
}

/// `chrono::Local.timestamp_opt(ts, 0).single()`: the instant `ts` in the
/// machine's time zone. `timestamp_opt` answers `Single` whenever
/// `DateTime::from_timestamp(ts, 0)` exists, which it does within
/// `local_range`; only `None` is possible beyond. The local fields depend on
/// the environment; the instant is `ts`. The local year may lie one past
/// chrono's UTC range when the offset crosses its last or first day.
#[verifier::external_body]
pub(crate) fn local_at(ts: i64) -> (r: Option<LocalStamp>)
    ensures
        r matches Some(l) ==> l.wf() && l.ts == ts && -262_144 <= l.year <= 262_143,
        local_range(ts as int) ==> r is Some,
{
    chrono::Local.timestamp_opt(ts, 0).single().map(|dt| LocalStamp {
        ts: dt.timestamp(),
        year: dt.year(),
        month: dt.month(),
        day: dt.day(),
        hour: dt.hour(),
        minute: dt.minute(),
        weekday: dt.weekday().num_days_from_monday(),
    })
}

/// `HH:MM`, zero-padded.
pub open spec fn spec_hhmm(hour: u32, minute: u32) -> Seq<char> {
    dec_pad(hour as nat, 2) + ":"@ + dec_pad(minute as nat, 2)
}

/// Three-letter upper-case month name (`m` in 1..=12).
pub open spec fn month_abbr(m: u32) -> Seq<char> {
    if m == 1 {
        "JAN"@
    } else if m == 2 {
        "FEB"@
    } else if m == 3 {
        "MAR"@
    } else if m == 4 {
        "APR"@
    } else if m == 5 {
        "MAY"@
    } else if m == 6 {
        "JUN"@
    } else if m == 7 {
        "JUL"@
    } else if m == 8 {
        "AUG"@
    } else if m == 9 {
        "SEP"@
    } else if m == 10 {
        "OCT"@
    } else if m == 11 {
        "NOV"@
    } else {
        "DEC"@
    }
}

/// Three-letter upper-case weekday name, Monday = 0.
pub open spec fn weekday_abbr(d: u32) -> Seq<char> {
    if d == 0 {
        "MON"@
    } else if d == 1 {
        "TUE"@
    } else if d == 2 {
        "WED"@
    } else if d == 3 {
        "THU"@
    } else if d == 4 {
        "FRI"@
    } else if d == 5 {
        "SAT"@
    } else {
        "SUN"@
    }
}

pub fn month_name(m: u32) -> (r: &'static str)
    ensures
        r@ == month_abbr(m),
{
    if m == 1 {
        "JAN"
    } else if m == 2 {
        "FEB"
    } else if m == 3 {
        "MAR"
    } else if m == 4 {
        "APR"
    } else if m == 5 {
        "MAY"
    } else if m == 6 {
        "JUN"
    } else if m == 7 {
        "JUL"
    } else if m == 8 {
        "AUG"
    } else if m == 9 {
        "SEP"
    } else if m == 10 {
        "OCT"
    } else if m == 11 {
        "NOV"
    } else {
        "DEC"
    }
}

pub fn weekday_name(d: u32) -> (r: &'static str)
    ensures
        r@ == weekday_abbr(d),
{
    if d == 0 {
        "MON"
    } else if d == 1 {
        "TUE"
    } else if d == 2 {
        "WED"
    } else if d == 3 {
        "THU"
    } else if d == 4 {
        "FRI"
    } else if d == 5 {
        "SAT"
    } else {
        "SUN"
    }
}

/// `HH:MM` of a clock reading.
pub fn fmt_hhmm(hour: u32, minute: u32) -> (r: String)
    ensures
        r@ == spec_hhmm(hour, minute),
{
    let mut v: Vec<char> = Vec::new();
    push_dec_pad(&mut v, hour as u64, 2);
    push_str(&mut v, ":");
    push_dec_pad(&mut v, minute as u64, 2);
    string_from_chars(&v)
}

/// `DD MON YYYY` as the header prints the date.
pub open spec fn spec_date_line(s: LocalStamp) -> Seq<char> {
    dec_pad(s.day as nat, 2) + " "@ + month_abbr(s.month) + " "@ + dec_int(s.year as int)
}

pub fn fmt_date_line(s: &LocalStamp) -> (r: String)
    ensures
        r@ == spec_date_line(*s),
{
    let mut v: Vec<char> = Vec::new();
    push_dec_pad(&mut v, s.day as u64, 2);
    push_str(&mut v, " ");
    push_str(&mut v, month_name(s.month));
    push_str(&mut v, " ");
    push_int(&mut v, s.year as i64);
    string_from_chars(&v)
}

/// `%Y` of chrono: the year zero-padded to four digits, with a sign for
/// years outside 0..=9999.
pub open spec fn spec_year4(y: int) -> Seq<char> {
    if 0 <= y <= 9999 {
        dec_pad(y as nat, 4)
    } else if y > 9999 {
        "+"@ + dec(y as nat)
    } else {
        "-"@ + dec_pad((-y) as nat, 4)
    }
}

/// `MON 'YY`: the month label of the budget panel, the year being the
/// `%Y` rendering with its first two characters dropped.
pub open spec fn spec_month_label(s: LocalStamp) -> Seq<char> {
    month_abbr(s.month) + " '"@ + spec_year4(s.year as int).skip(2)
}

pub fn fmt_month_label(s: &LocalStamp) -> (r: String)
    ensures
        r@ == spec_month_label(*s),
{
    let mut y: Vec<char> = Vec::new();
    let yr = s.year as i64;
    if 0 <= yr && yr <= 9999 {
        push_dec_pad(&mut y, yr as u64, 4);
    } else if yr > 9999 {
        push_str(&mut y, "+");
        crate::text::push_dec(&mut y, yr as u64);
    } else {
        push_str(&mut y, "-");
        push_dec_pad(&mut y, (-yr) as u64, 4);
    }
    proof {
        crate::text::lemma_dec_len(if yr >= 0 { yr as nat } else { (-yr) as nat });
        reveal_strlit("+");
        reveal_strlit("-");
    }
    assert(y@ == spec_year4(s.year as int));
    let mut v: Vec<char> = Vec::new();
    push_str(&mut v, month_name(s.month));
    push_str(&mut v, " '");
    let mut k: usize = 2;
    assert(y@.len() >= 4) by {
        crate::text::lemma_dec_len_at_least(if yr >= 0 { yr as nat } else { (-yr) as nat });
        crate::text::lemma_dec_pad_len(if yr >= 0 { yr as nat } else { (-yr) as nat }, 4);
    }
    let ghost base = v@;
    while k < y.len()
        invariant
            2 <= k <= y@.len(),
            v@ == base + y@.subrange(2, k as int),
        decreases y.len() - k,
    {
        v.push(y[k]);
        assert(y@.subrange(2, k + 1) == y@.subrange(2, k as int).push(y@[k as int]));
        k += 1;
    }
    assert(y@.subrange(2, y@.len() as int) == y@.skip(2));
    string_from_chars(&v)
}

// ── Calendar ───────────────────────────────────────────────────────────────

/// The years chrono's dates cover.
pub open spec fn year_ok(y: int) -> bool {
    -262_143 <= y <= 262_142
}

/// Proleptic Gregorian leap year.
pub open spec fn is_leap_year(y: int) -> bool {
    y % 4 == 0 && (y % 100 != 0 || y % 400 == 0)
}

/// Days in month `m` (1..=12) of year `y`.
pub open spec fn month_days(y: int, m: int) -> int {
    if m == 2 {
        if is_leap_year(y) { 29 } else { 28 }
    } else if m == 4 || m == 6 || m == 9 || m == 11 {
        30
    } else {
        31
    }
}

/// `y-m-d` is a date chrono represents.
pub open spec fn date_ok(y: int, m: int, d: int) -> bool {
    year_ok(y) && 1 <= m <= 12 && 1 <= d <= month_days(y, m)
}

/// Days of year `y` before the first of month `m`.
pub open spec fn days_before(y: int, m: int) -> int
    decreases m,
{
    if m <= 1 { 0 } else { days_before(y, m - 1) + month_days(y, m - 1) }
}

/// Day number of `y-m-d`, 1 January of year 1 being day 1 (floor
/// divisions, so years before 1 count backwards).
pub open spec fn day_number(y: int, m: int, d: int) -> int {
    let p = y - 1;
    365 * p + p / 4 - p / 100 + p / 400 + days_before(y, m) + d
}

/// Day number of the date `y-m-d`, `None` when that is no date chrono
/// represents.
pub open spec fn spec_days_from_ce(y: i32, m: u32, d: u32) -> Option<i32> {
    if date_ok(y as int, m as int, d as int) {
        Some(day_number(y as int, m as int, d as int) as i32)
    } else {
        None
    }
}

/// `chrono::NaiveDate::from_ymd_opt(y, m, d)` (a Gregorian date with year
/// between -262143 and 262142) and, for such a date,
/// `Datelike::num_days_from_ce`. Claimed: exactly `spec_days_from_ce`,
/// the count of days from 1 January of year 1 as day 1.
#[verifier::external_body]
fn days_from_ce(y: i32, m: u32, d: u32) -> (r: Option<i32>)
    ensures
        r == spec_days_from_ce(y, m, d),
{
    chrono::NaiveDate::from_ymd_opt(y, m, d).map(|date| date.num_days_from_ce())
}

/// Length of month `month` of `year`: the days from its first to the next
/// month's first, 30 when either date is invalid.
pub open spec fn spec_days_in_month(year: i32, month: u32) -> u32 {
    let next = if month == 12 {
        spec_days_from_ce((year + 1) as i32, 1, 1)
    } else {
        spec_days_from_ce(year, (month + 1) as u32, 1)
    };
    match (next, spec_days_from_ce(year, month, 1)) {
        (Some(n), Some(t)) => (n - t) as u32,
        _ => 30,
    }
}

pub fn days_in_month(year: i32, month: u32) -> (r: u32)
    requires
        year < i32::MAX,
        month < u32::MAX,
    ensures
        r == spec_days_in_month(year, month),
{
    let next = if month == 12 {
        days_from_ce(year + 1, 1, 1)
    } else {
        days_from_ce(year, month + 1, 1)
    };
    match (next, days_from_ce(year, month, 1)) {
        (Some(n), Some(t)) => ((n as i64) - (t as i64)) as u32,
        _ => 30,
    }
}

// ── Zone-free date-times and zone conversions ──────────────────────────────

/// A calendar date and wall time without a zone.
#[derive(Copy, Clone, Debug, PartialEq, Eq, Structural)]
pub struct NaiveStamp {
    pub year: i32,
    pub month: u32,
    pub day: u32,
    pub hour: u32,
    pub minute: u32,
    pub second: u32,
}

/// The date-time `s` spells in the form `%Y%m%dT%H%M%S`, as chrono reads
/// that form.
pub uninterp spec fn spec_parse_datetime(s: Seq<char>) -> Option<NaiveStamp>;

/// `chrono::NaiveDateTime::parse_from_str(s, "%Y%m%dT%H%M%S")`. Claimed: a
/// function of `s`.
#[verifier::external_body]
pub(crate) fn parse_datetime(s: &str) -> (r: Option<NaiveStamp>)
    ensures
        r == spec_parse_datetime(s@),
{
    chrono::NaiveDateTime::parse_from_str(s, "%Y%m%dT%H%M%S").ok().map(|n| NaiveStamp {
        year: n.year(),
        month: n.month(),
        day: n.day(),
        hour: n.hour(),
        minute: n.minute(),
        second: n.second(),
    })
}

/// The date `s` spells in the form `%Y%m%d`, as chrono reads that form,
/// at midnight.
pub uninterp spec fn spec_parse_date(s: Seq<char>) -> Option<NaiveStamp>;

/// `chrono::NaiveDate::parse_from_str(s, "%Y%m%d")`, at 00:00:00.
/// Claimed: a function of `s`, and the time of day is midnight.
#[verifier::external_body]
pub(crate) fn parse_date(s: &str) -> (r: Option<NaiveStamp>)
    ensures
        r == spec_parse_date(s@),
        r matches Some(n) ==> n.hour == 0 && n.minute == 0 && n.second == 0,
{
    chrono::NaiveDate::parse_from_str(s, "%Y%m%d").ok().map(|d| NaiveStamp {
        year: d.year(),
        month: d.month(),
        day: d.day(),
        hour: 0,
        minute: 0,
        second: 0,
    })
}

/// The day after the date of `n`, at midnight; `None` when `n` holds no
/// date chrono represents, or its last one (31 December 262142).
pub open spec fn spec_next_day(n: NaiveStamp) -> Option<NaiveStamp> {
    let (y, m, d) = (n.year as int, n.month as int, n.day as int);
    if !date_ok(y, m, d) {
        None
    } else if d < month_days(y, m) {
        Some(NaiveStamp { year: n.year, month: n.month, day: (n.day + 1) as u32, hour: 0, minute: 0, second: 0 })
    } else if m < 12 {
        Some(NaiveStamp { year: n.year, month: (n.month + 1) as u32, day: 1, hour: 0, minute: 0, second: 0 })
    } else if y < 262_142 {
        Some(NaiveStamp { year: (n.year + 1) as i32, month: 1, day: 1, hour: 0, minute: 0, second: 0 })
    } else {
        None
    }
}

/// `chrono::NaiveDate::from_ymd_opt` then `succ_opt` on the date of `n`.
/// Claimed: exactly `spec_next_day`, the next calendar date at midnight.
#[verifier::external_body]
pub(crate) fn next_day(n: &NaiveStamp) -> (r: Option<NaiveStamp>)
    ensures
        r == spec_next_day(*n),
        r matches Some(d) ==> d.hour == 0 && d.minute == 0 && d.second == 0,
{
    let d = chrono::NaiveDate::from_ymd_opt(n.year, n.month, n.day)?.succ_opt()?;
    Some(NaiveStamp { year: d.year(), month: d.month(), day: d.day(), hour: 0, minute: 0, second: 0 })
}

/// Days from 1 January of year 1 to the Unix epoch.
pub const UNIX_EPOCH_DAY: i64 = 719_163;

/// Unix time of `n` read as UTC; `None` when its date is none chrono
/// represents or its time is no `hh < 24`, `mm < 60`, `ss < 60`.
pub open spec fn spec_utc_seconds(n: NaiveStamp) -> Option<i64> {
    if date_ok(n.year as int, n.month as int, n.day as int) && n.hour < 24 && n.minute < 60 && n.second < 60 {
        Some(((day_number(n.year as int, n.month as int, n.day as int) - UNIX_EPOCH_DAY) * 86_400
            + n.hour * 3600 + n.minute * 60 + n.second) as i64)
    } else {
        None
    }
}

/// `chrono::NaiveDate::from_ymd_opt`, `and_hms_opt` and
/// `and_utc().timestamp()` on `n`. Claimed: exactly `spec_utc_seconds`,
/// the days since the epoch times 86,400 plus the seconds of the day.
#[verifier::external_body]
pub(crate) fn utc_seconds(n: &NaiveStamp) -> (r: Option<i64>)
    ensures
        r == spec_utc_seconds(*n),
{
    let d = chrono::NaiveDate::from_ymd_opt(n.year, n.month, n.day)?;
    Some(d.and_hms_opt(n.hour, n.minute, n.second)?.and_utc().timestamp())
}

/// The canonical IANA name of the zone `s` names, if chrono-tz knows it.
pub uninterp spec fn spec_iana_name(s: Seq<char>) -> Option<Seq<char>>;

/// `s.parse::<chrono_tz::Tz>()` and `Tz::name`. Claimed: a function of `s`.
#[verifier::external_body]
pub(crate) fn iana_name(s: &str) -> (r: Option<&'static str>)
    ensures
        match r {
            Some(n) => spec_iana_name(s@) == Some(n@),
            None => spec_iana_name(s@) is None,
        },
{
    s.parse::<chrono_tz::Tz>().ok().map(|tz| tz.name())
}

/// Unix time of the wall time `n` in zone `tz`, when that wall time occurs
/// exactly once there.
pub uninterp spec fn spec_zone_seconds(tz: Seq<char>, n: NaiveStamp) -> Option<i64>;

/// `TimeZone::from_local_datetime(..).single()` in the chrono-tz zone named
/// `tz`, then `timestamp()`; `None` for an unknown zone, invalid fields, a
/// skipped or an ambiguous wall time. Claimed: a function of the arguments.
#[verifier::external_body]
pub(crate) fn zone_seconds(tz: &str, n: &NaiveStamp) -> (r: Option<i64>)
    ensures
        r == spec_zone_seconds(tz@, *n),
{
    let zone = tz.parse::<chrono_tz::Tz>().ok()?;
    let naive = chrono::NaiveDate::from_ymd_opt(n.year, n.month, n.day)?.and_hms_opt(n.hour, n.minute, n.second)?;
    zone.from_local_datetime(&naive).single().map(|t| t.timestamp())
}

/// `chrono::Local.from_local_datetime(..).single()`: the wall time `n` in
/// the machine's zone, `None` when the fields are invalid or that wall time
/// is skipped or ambiguous there. Depends on the environment: whether it
/// exists and its instant; a single local reading keeps the wall time's
/// date, hour and minute.
#[verifier::external_body]
pub(crate) fn naive_to_local(n: &NaiveStamp) -> (r: Option<LocalStamp>)
    ensures
        r matches Some(l) ==> l.wf() && -262_143 <= l.year <= 262_142 && l.year == n.year && l.month == n.month
            && l.day == n.day && l.hour == n.hour && l.minute == n.minute,
{
    let naive = chrono::NaiveDate::from_ymd_opt(n.year, n.month, n.day)?.and_hms_opt(n.hour, n.minute, n.second)?;
    chrono::Local.from_local_datetime(&naive).single().map(|dt| LocalStamp {
        ts: dt.timestamp(),
        year: dt.year(),
        month: dt.month(),
        day: dt.day(),
        hour: dt.hour(),
        minute: dt.minute(),
        weekday: dt.weekday().num_days_from_monday(),
    })
}

} // verus!
