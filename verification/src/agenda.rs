//! Today's agenda from iCalendar feeds: event extraction, start times in
//! their zones, recurrence expansion over today, and the merged list.

use vstd::prelude::*;
use chrono::TimeZone;
use crate::clock::{
    iana_name, local_at, local_range, naive_to_local, next_day, parse_date, parse_datetime, spec_iana_name,
    spec_parse_date, spec_parse_datetime, spec_utc_seconds, spec_zone_seconds, utc_seconds,
    zone_seconds, LocalStamp, NaiveStamp,
};
use crate::ical::{
    find_char, find_char_from, lemma_find_char, parse_iso8601_duration_minutes, spec_duration_minutes,
    spec_unfold, starts_with, trim_ws, trim_ws_chars, unfold,
};
use crate::clock::{fmt_hhmm, spec_hhmm};
use crate::dashboard::{spec_to_uppercase, to_uppercase};
use crate::data::AgendaItem;
use crate::ical::{
    ical_dtend, ical_dtstart, ical_field, ical_field_value, spec_dtend_in, spec_dtstart_in,
    spec_field_in, spec_field_value_in, spec_format_duration, spec_lines, spec_split, split_chars,
    format_duration,
};
use crate::text::{chars_eq, chars_lt, chars_of, lemma_dec_pad_len, lemma_lex_trans, lemma_lex_trichotomy, lex_lt, push_str, string_from_chars, string_of};

verus! {

// ── Date-time values ───────────────────────────────────────────────────────

/// `s` without its trailing run of `c` (`str::trim_end_matches(c)`).
pub open spec fn strip_trailing(s: Seq<char>, c: char) -> Seq<char>
    decreases s.len(),
{
    if s.len() > 0 && s.last() == c {
        strip_trailing(s.drop_last(), c)
    } else {
        s
    }
}

/// `s` holds the character `c`.
pub open spec fn has_char(s: Seq<char>, c: char) -> bool {
    find_char(s, c) is Some
}

fn strip_trailing_chars(cs: &Vec<char>, c: char) -> (r: Vec<char>)
    ensures
        r@ == strip_trailing(cs@, c),
{
    let mut n = cs.len();
    assert(cs@.take(n as int) == cs@);
    while n > 0 && cs[n - 1] == c
        invariant
            n <= cs@.len(),
            strip_trailing(cs@, c) == strip_trailing(cs@.take(n as int), c),
        decreases n,
    {
        assert(cs@.take(n as int).drop_last() == cs@.take(n - 1));
        n -= 1;
    }
    let mut out: Vec<char> = Vec::new();
    let mut i: usize = 0;
    while i < n
        invariant
            n <= cs@.len(),
            i <= n,
            out@ == cs@.take(i as int),
        decreases n - i,
    {
        out.push(cs[i]);
        assert(cs@.take(i + 1) == cs@.take(i as int).push(cs@[i as int]));
        i += 1;
    }
    out
}

fn has_char_exec(cs: &Vec<char>, c: char) -> (r: bool)
    ensures
        r == has_char(cs@, c),
{
    assert(cs@.skip(0) == cs@);
    find_char_from(cs, 0, c).is_some()
}

/// The local reading shows the wall time `n` (to the minute).
pub open spec fn same_wall_time(l: LocalStamp, n: NaiveStamp) -> bool {
    l.year == n.year && l.month == n.month && l.day == n.day && l.hour == n.hour && l.minute == n.minute
}

/// An event's start as a local reading, with whether it is an all-day
/// (date-only) value. A value with a `T` is a date-time: with a trailing `Z`
/// it is UTC; else it is the wall time of its `TZID` zone when chrono-tz
/// knows that zone, and of the machine's zone otherwise. A value without
/// `T` is a date, taken at local midnight. The instant is stated where the
/// zone is not the machine's, and there the reading exists whenever the
/// instant does and lies within `local_range`. A wall time in the
/// machine's zone (a floating time or a date) keeps its date, hour and
/// minute; whether it exists once there, and its instant, depend on the
/// machine.
pub open spec fn dtstart_ok(value: Seq<char>, tzid: Option<Seq<char>>, r: Option<(LocalStamp, bool)>) -> bool {
    let v = trim_ws(value);
    if has_char(v, 'T') {
        match spec_parse_datetime(strip_trailing(v, 'Z')) {
            None => r is None,
            Some(n) => match r {
                None => if v.len() > 0 && v.last() == 'Z' {
                    !(spec_utc_seconds(n) matches Some(t) && local_range(t as int))
                } else if tzid is Some && spec_iana_name(tzid->0) is Some {
                    !(spec_zone_seconds(tzid->0, n) matches Some(t) && local_range(t as int))
                } else {
                    true
                },
                Some(p) => {
                    &&& !p.1
                    &&& p.0.wf()
                    &&& (v.len() > 0 && v.last() == 'Z' ==> spec_utc_seconds(n) == Some(p.0.ts))
                    &&& (!(v.len() > 0 && v.last() == 'Z') && tzid is Some && spec_iana_name(tzid->0) is Some
                        ==> spec_zone_seconds(tzid->0, n) == Some(p.0.ts))
                    &&& (!(v.len() > 0 && v.last() == 'Z') && !(tzid is Some && spec_iana_name(tzid->0) is Some)
                        ==> same_wall_time(p.0, n))
                },
            },
        }
    } else {
        match spec_parse_date(v) {
            None => r is None,
            Some(d) => r matches Some(p) ==> p.1 && p.0.wf() && same_wall_time(p.0, d),
        }
    }
}

/// Reads a DTSTART/DTEND value (`20260507T153000Z`, `20260507T153000`
/// or `20260507`) in the zone `tzid`.
pub fn parse_ical_dtstart(value: &str, tzid: Option<&str>) -> (r: Option<(LocalStamp, bool)>)
    ensures
        dtstart_ok(value@, match tzid { Some(z) => Some(z@), None => None }, r),
{
    let v = trim_ws_chars(&chars_of(value));
    if has_char_exec(&v, 'T') {
        let is_utc = v.len() > 0 && v[v.len() - 1] == 'Z';
        let core = string_from_chars(&strip_trailing_chars(&v, 'Z'));
        let naive = match parse_datetime(core.as_str()) {
            Some(n) => n,
            None => return None,
        };
        let local = if is_utc {
            match utc_seconds(&naive) {
                Some(t) => local_at(t),
                None => None,
            }
        } else {
            match tzid {
                Some(tz) => match iana_name(tz) {
                    Some(_) => match zone_seconds(tz, &naive) {
                        Some(t) => local_at(t),
                        None => None,
                    },
                    None => naive_to_local(&naive),
                },
                None => naive_to_local(&naive),
            }
        };
        match local {
            Some(l) => Some((l, false)),
            None => None,
        }
    } else {
        let vs = string_from_chars(&v);
        match parse_date(vs.as_str()) {
            Some(d) => match naive_to_local(&d) {
                Some(l) => Some((l, true)),
                None => None,
            },
            None => None,
        }
    }
}

/// Whole minutes from `start` to `end`, `None` unless `end` is later.
pub open spec fn spec_minutes_between(start: i64, end: i64) -> Option<u32> {
    if end - start <= 0 {
        None
    } else {
        Some(((end - start) / 60) as u32)
    }
}

pub fn minutes_between(start: i64, end: i64) -> (r: Option<u32>)
    ensures
        r == spec_minutes_between(start, end),
{
    let secs: i128 = end as i128 - start as i128;
    if secs <= 0 {
        None
    } else {
        Some((secs / 60) as u32)
    }
}

/// An event's length in minutes: its `DURATION` when that parses, else
/// `DTEND − DTSTART` when both read and the end is later.
pub fn compute_duration_minutes(duration_str: &str, dtstart_value: &str, dtend_value: &str, tzid: Option<&str>) -> (r: Option<u32>)
    ensures
        spec_duration_minutes(duration_str@) is Some ==> r == spec_duration_minutes(duration_str@),
        spec_duration_minutes(duration_str@) is None ==> duration_ok(duration_str@, dtstart_value@, dtend_value@, match tzid { Some(z) => Some(z@), None => None }, r),
{
    if let Some(m) = parse_iso8601_duration_minutes(duration_str) {
        return Some(m);
    }
    if chars_of(dtend_value).len() == 0 {
        return None;
    }
    let start = parse_ical_dtstart(dtstart_value, tzid);
    let end = parse_ical_dtstart(dtend_value, tzid);
    let ghost tz_v = match tzid { Some(z) => Some(z@), None => None };
    assert(dtstart_ok(dtstart_value@, tz_v, start));
    assert(dtstart_ok(dtend_value@, tz_v, end));
    match (start, end) {
        (Some(s), Some(e)) => minutes_between(s.0.ts, e.0.ts),
        _ => None,
    }
}

// ── Recurrences ────────────────────────────────────────────────────────────

/// The instants (Unix seconds) at which the recurrence set spelled by
/// `text` (a named text: see `named_text`) occurs between `from` and `to`,
/// both included, at most `limit` of them; `None` when `text` is no valid
/// set or a bound lies outside chrono's range.
pub uninterp spec fn spec_rrule_occurrences(text: Seq<char>, from: i64, to: i64, limit: u16) -> Option<Seq<i64>>;

/// `text` is one DTSTART line whose date is read in a zone it names (a
/// `TZID` parameter, or a value ending in `Z`) and one RRULE line, with
/// exactly one line break between them. The set is then read the same on
/// every machine: an RRULE's `UNTIL` without `Z` is read in the machine's
/// zone, but against such a start the recurrence parser refuses it
/// whatever it reads.
pub open spec fn named_text(text: Seq<char>) -> bool {
    match find_char(text, '\n') {
        Some(k) => {
            let line = text.take(k);
            let rest = text.skip(k + 1);
            &&& find_char(rest, '\n') is None
            &&& starts_with(rest, "RRULE:"@)
            &&& (starts_with(line, "DTSTART;TZID="@) || (starts_with(line, "DTSTART:"@) && line.last() == 'Z'))
        },
        None => false,
    }
}

/// Most occurrences one event may contribute to a day.
pub const OCCURRENCE_CAP: u16 = 50;

/// `text.parse::<rrule::RRuleSet>()`, narrowed with `after(from)` and
/// `before(to)` (UTC instants) and materialized with `all(limit)`.
/// Claimed of every outcome: at most `limit` instants, each within the
/// window (the rrule source filters with an inclusive range and stops at
/// the limit). A date without `Z` or a zone of its own is read in the
/// machine's zone, so the result is named only for a named text.
#[verifier::external_body]
fn rrule_occurrences(text: &str, from: i64, to: i64, limit: u16) -> (r: Option<Vec<i64>>)
    ensures
        named_text(text@) ==> spec_rrule_occurrences(text@, from, to, limit) == match r {
            Some(v) => Some(v@),
            None => None::<Seq<i64>>,
        },
        r matches Some(v) ==> v@.len() <= limit && forall|i: int| 0 <= i < v@.len() ==> from <= #[trigger] v@[i] <= to,
{
    let set = text.parse::<rrule::RRuleSet>().ok()?;
    let a = rrule::Tz::UTC.timestamp_opt(from, 0).single()?;
    let b = rrule::Tz::UTC.timestamp_opt(to, 0).single()?;
    Some(set.after(a).before(b).all(limit).dates.iter().map(|d| d.timestamp()).collect())
}

/// The text handed to the recurrence parser: the DTSTART line (with the
/// zone's canonical name and without the UTC marker when the zone is
/// known) and the RRULE line.
pub open spec fn rrule_text(dtstart: Seq<char>, zone: Option<Seq<char>>, rule: Seq<char>) -> Seq<char> {
    let line = match zone {
        Some(n) => "DTSTART;TZID="@ + n + ":"@ + strip_trailing(dtstart, 'Z'),
        None => "DTSTART:"@ + dtstart,
    };
    line + "\nRRULE:"@ + rule
}

/// Midnight opening `today`.
pub open spec fn day_open(today: NaiveStamp) -> NaiveStamp {
    NaiveStamp { year: today.year, month: today.month, day: today.day, hour: 0, minute: 0, second: 0 }
}

/// Midnight closing `today` (the epoch's when there is no next day).
pub open spec fn day_close(today: NaiveStamp) -> NaiveStamp {
    match crate::clock::spec_next_day(today) {
        Some(n) => n,
        None => NaiveStamp { year: 1970, month: 1, day: 1, hour: 0, minute: 0, second: 0 },
    }
}

/// The canonical name of the event's zone, when chrono-tz knows it.
pub open spec fn resolved_zone(tzid: Option<Seq<char>>) -> Option<Seq<char>> {
    match tzid {
        Some(t) => spec_iana_name(t),
        None => None,
    }
}

/// Every reading of `r` is at one of the instants `occ`.
pub open spec fn at_instants(r: Seq<LocalStamp>, occ: Seq<i64>) -> bool {
    forall|i: int| 0 <= i < r.len() ==> exists|j: int| 0 <= j < occ.len() && occ[j] == (#[trigger] r[i]).ts
}

/// `r` are local readings of the instants `occ`: each reading is at one of
/// them, and when every instant lies within `local_range` there is one
/// reading per instant, in order.
pub open spec fn readings_of(r: Seq<LocalStamp>, occ: Seq<i64>) -> bool {
    &&& at_instants(r, occ)
    &&& r.len() <= occ.len()
    &&& (forall|j: int| 0 <= j < occ.len() ==> local_range(#[trigger] occ[j] as int)) ==> {
        &&& r.len() == occ.len()
        &&& forall|i: int| 0 <= i < r.len() ==> (#[trigger] r[i]).ts == occ[i]
    }
}

/// What the recurrence call on `text` over `[a, b]` gave, as far as it is
/// stated: the named result for a named text, and in any case at most 50
/// instants, each within the window.
pub open spec fn call_outcome(text: Seq<char>, a: i64, b: i64, occ: Option<Seq<i64>>) -> bool {
    &&& (named_text(text) ==> spec_rrule_occurrences(text, a, b, OCCURRENCE_CAP) == occ)
    &&& (occ matches Some(v) ==> v.len() <= OCCURRENCE_CAP && forall|j: int| 0 <= j < v.len() ==> a <= #[trigger] v[j] <= b)
}

/// `r` is what the set spelled by `text` gives between the instants `a`
/// and `b`: the local readings of the occurrences the call returned, or
/// nothing when it returned none.
pub open spec fn window_ok(text: Seq<char>, a: i64, b: i64, r: Seq<LocalStamp>) -> bool {
    exists|occ: Option<Seq<i64>>| #[trigger] call_outcome(text, a, b, occ) && match occ {
        Some(v) => readings_of(r, v),
        None => r.len() == 0,
    }
}

/// `w` holds the machine zone's readings of today's two midnights, when
/// both exist once there (`None` otherwise, which only the zone decides).
pub open spec fn machine_midnights(today: NaiveStamp, w: Option<(LocalStamp, LocalStamp)>) -> bool {
    match w {
        Some(p) => p.0.wf() && p.1.wf() && same_wall_time(p.0, day_open(today)) && same_wall_time(p.1, day_close(today)),
        None => true,
    }
}

/// What the expansion of a recurring event over `today` gives: at most 50
/// well-formed local readings. In a known zone the midnights are that
/// zone's; without one they are the machine zone's. The result is empty
/// when a midnight does not exist once; else it is what the set gives
/// between the midnights' instants (`window_ok`).
pub open spec fn expansion_ok(dtstart: Seq<char>, tzid: Option<Seq<char>>, rule: Seq<char>, today: NaiveStamp, r: Seq<LocalStamp>) -> bool {
    let zone = resolved_zone(tzid);
    let text = rrule_text(dtstart, zone, rule);
    &&& r.len() <= 50
    &&& forall|i: int| 0 <= i < r.len() ==> (#[trigger] r[i]).wf()
    &&& (zone is Some ==> zoned_ok(text, tzid->0, today, r))
    &&& (zone is None ==> exists|w: Option<(LocalStamp, LocalStamp)>| #[trigger] machine_midnights(today, w) && match w {
        Some(p) => window_ok(text, p.0.ts, p.1.ts, r),
        None => r.len() == 0,
    })
}

/// In zone `tz`: when both midnights of `today` exist once, what the set
/// gives between them; else nothing.
pub open spec fn zoned_ok(text: Seq<char>, tz: Seq<char>, today: NaiveStamp, r: Seq<LocalStamp>) -> bool {
    match spec_zone_seconds(tz, day_open(today)) {
        Some(a) => match spec_zone_seconds(tz, day_close(today)) {
            Some(b) => window_ok(text, a, b, r),
            None => r.len() == 0,
        },
        None => r.len() == 0,
    }
}

/// The local readings of the instants `occ`, in order, skipping any that
/// chrono cannot place.
pub fn readings_at(occ: &Vec<i64>) -> (r: Vec<LocalStamp>)
    ensures
        readings_of(r@, occ@),
        forall|k: int| 0 <= k < r@.len() ==> (#[trigger] r@[k]).wf(),
{
    let mut out: Vec<LocalStamp> = Vec::new();
    let mut i: usize = 0;
    while i < occ.len()
        invariant
            i <= occ@.len(),
            out@.len() <= i,
            forall|k: int| 0 <= k < out@.len() ==> (#[trigger] out@[k]).wf(),
            at_instants(out@, occ@),
            (forall|j: int| 0 <= j < i ==> local_range(#[trigger] occ@[j] as int)) ==> out@.len() == i
                && forall|k: int| 0 <= k < out@.len() ==> (#[trigger] out@[k]).ts == occ@[k],
        decreases occ.len() - i,
    {
        let ghost prev = out@;
        if let Some(l) = local_at(occ[i]) {
            out.push(l);
            assert forall|k: int| 0 <= k < out@.len() implies exists|j: int| 0 <= j < occ@.len() && occ@[j] == (#[trigger] out@[k]).ts by {
                if k < prev.len() {
                    assert(out@[k] == prev[k]);
                } else {
                    assert(occ@[i as int] == out@[k].ts);
                }
            }
        }
        i += 1;
    }
    out
}

/// What the set spelled by `text` gives between the instants `from` and
/// `to`: the local readings of at most 50 of its occurrences there.
pub fn expand_between(text: &str, from: i64, to: i64) -> (r: Vec<LocalStamp>)
    ensures
        window_ok(text@, from, to, r@),
        r@.len() <= 50,
        forall|k: int| 0 <= k < r@.len() ==> (#[trigger] r@[k]).wf(),
{
    match rrule_occurrences(text, from, to, OCCURRENCE_CAP) {
        Some(v) => {
            let out = readings_at(&v);
            assert(call_outcome(text@, from, to, Some(v@)));
            out
        },
        None => {
            let e: Vec<LocalStamp> = Vec::new();
            assert(call_outcome(text@, from, to, None));
            e
        },
    }
}

/// The occurrences of a recurring event (DTSTART value, TZID, RRULE) that
/// fall on `today`.
pub fn expand_rrule_for_day(dtstart_value: &str, tzid: Option<&str>, rrule_value: &str, today: &NaiveStamp) -> (r: Vec<LocalStamp>)
    ensures
        expansion_ok(dtstart_value@, match tzid { Some(z) => Some(z@), None => None }, rrule_value@, *today, r@),
{
    let zone: Option<&str> = match tzid {
        Some(t) => iana_name(t),
        None => None,
    };
    let mut text: Vec<char> = Vec::new();
    match zone {
        Some(name) => {
            push_str(&mut text, "DTSTART;TZID=");
            push_str(&mut text, name);
            push_str(&mut text, ":");
            let stripped = strip_trailing_chars(&chars_of(dtstart_value), 'Z');
            crate::text::push_all(&mut text, &stripped);
        },
        None => {
            push_str(&mut text, "DTSTART:");
            push_str(&mut text, dtstart_value);
        },
    }
    push_str(&mut text, "\nRRULE:");
    push_str(&mut text, rrule_value);
    let text_s = string_from_chars(&text);
    let ghost tz_v = match tzid { Some(z) => Some(z@), None => None };
    let ghost zone_v = resolved_zone(tz_v);
    assert(text_s@ == rrule_text(dtstart_value@, zone_v, rrule_value@));

    let open = NaiveStamp { year: today.year, month: today.month, day: today.day, hour: 0, minute: 0, second: 0 };
    let close = match next_day(today) {
        Some(n) => n,
        None => NaiveStamp { year: 1970, month: 1, day: 1, hour: 0, minute: 0, second: 0 },
    };
    assert(open == day_open(*today));
    assert(close == day_close(*today));
    match zone {
        Some(_) => {
            let tz = match tzid { Some(t) => t, None => "" };
            match (zone_seconds(tz, &open), zone_seconds(tz, &close)) {
                (Some(a), Some(b)) => expand_between(text_s.as_str(), a, b),
                _ => Vec::new(),
            }
        },
        None => match (naive_to_local(&open), naive_to_local(&close)) {
            (Some(a), Some(b)) => {
                let r = expand_between(text_s.as_str(), a.ts, b.ts);
                assert(machine_midnights(*today, Some((a, b))));
                r
            },
            _ => {
                let e: Vec<LocalStamp> = Vec::new();
                assert(machine_midnights(*today, None));
                e
            },
        },
    }
}

// ── VEVENT blocks ──────────────────────────────────────────────────────────

/// Index of the first occurrence of `p` (non-empty) in `s`.
pub open spec fn find_sub(s: Seq<char>, p: Seq<char>) -> Option<int>
    decreases s.len(),
{
    if starts_with(s, p) {
        Some(0)
    } else if s.len() == 0 {
        None
    } else {
        match find_sub(s.skip(1), p) {
            Some(i) => Some(i + 1),
            None => None,
        }
    }
}

pub proof fn lemma_find_sub(s: Seq<char>, p: Seq<char>)
    requires
        p.len() > 0,
    ensures
        match find_sub(s, p) {
            Some(i) => 0 <= i && i + p.len() <= s.len() && starts_with(s.skip(i), p),
            None => true,
        },
    decreases s.len(),
{
    if !starts_with(s, p) && s.len() > 0 {
        lemma_find_sub(s.skip(1), p);
        if let Some(i) = find_sub(s.skip(1), p) {
            assert(s.skip(1).skip(i) == s.skip(i + 1));
        }
    } else if starts_with(s, p) {
        assert(s.skip(0) == s);
    }
}

/// The pieces of `s` between the (non-overlapping, leftmost first)
/// occurrences of `p`, as `str::split(p)` yields them.
pub open spec fn split_on(s: Seq<char>, p: Seq<char>) -> Seq<Seq<char>>
    decreases s.len(),
{
    if p.len() == 0 {
        seq![s]
    } else {
        proof {
            lemma_find_sub(s, p);
        }
        match find_sub(s, p) {
            None => seq![s],
            Some(i) => seq![s.take(i)] + split_on(s.skip(i + p.len()), p),
        }
    }
}

/// The VEVENT bodies of a feed: after unfolding, each piece following a
/// `BEGIN:VEVENT` that holds an `END:VEVENT`, cut at that marker (the
/// piece before the first `BEGIN:VEVENT` counts too).
pub open spec fn spec_blocks(content: Seq<char>) -> Seq<Seq<char>> {
    pieces_with_end(split_on(spec_unfold(content), "BEGIN:VEVENT"@))
}

pub open spec fn pieces_with_end(ps: Seq<Seq<char>>) -> Seq<Seq<char>>
    decreases ps.len(),
{
    if ps.len() == 0 {
        seq![]
    } else {
        let rest = pieces_with_end(ps.drop_last());
        match find_sub(ps.last(), "END:VEVENT"@) {
            Some(j) => rest.push(ps.last().take(j)),
            None => rest,
        }
    }
}

/// `p` occurs in `cs` at `at`.
fn occurs_at(cs: &Vec<char>, at: usize, p: &Vec<char>) -> (r: bool)
    requires
        at <= cs@.len(),
    ensures
        r == starts_with(cs@.skip(at as int), p@),
{
    if p.len() > cs.len() - at {
        return false;
    }
    let n = cs.len();
    let mut i: usize = 0;
    while i < p.len()
        invariant
            n == cs@.len(),
            at + p@.len() <= cs@.len(),
            i <= p@.len(),
            forall|j: int| 0 <= j < i ==> cs@[at + j] == p@[j],
        decreases p.len() - i,
    {
        let idx = at + i;
        if cs[idx] != p[i] {
            assert(cs@.skip(at as int).take(p@.len() as int)[i as int] != p@[i as int]);
            return false;
        }
        i += 1;
    }
    assert(cs@.skip(at as int).take(p@.len() as int) =~= p@);
    true
}

/// First occurrence of `p` (non-empty) in `cs` at or after `from`.
pub(crate) fn find_sub_from(cs: &Vec<char>, from: usize, p: &Vec<char>) -> (r: Option<usize>)
    requires
        from <= cs@.len(),
        p@.len() > 0,
    ensures
        match find_sub(cs@.skip(from as int), p@) {
            Some(i) => r == Some((from + i) as usize),
            None => r is None,
        },
{
    let mut k = from;
    while k < cs.len()
        invariant
            from <= k <= cs@.len(),
            p@.len() > 0,
            find_sub(cs@.skip(from as int), p@) == match find_sub(cs@.skip(k as int), p@) {
                Some(i) => Some(i + (k - from)),
                None => None,
            },
        decreases cs.len() - k,
    {
        if occurs_at(cs, k, p) {
            return Some(k);
        }
        assert(cs@.skip(k as int).skip(1) == cs@.skip(k + 1));
        k += 1;
    }
    assert(!starts_with(cs@.skip(k as int), p@));
    None
}

fn take_prefix(cs: &Vec<char>, from: usize, to: usize) -> (r: Vec<char>)
    requires
        from <= to <= cs@.len(),
    ensures
        r@ == cs@.subrange(from as int, to as int),
{
    let mut out: Vec<char> = Vec::new();
    let mut i = from;
    while i < to
        invariant
            from <= i <= to <= cs@.len(),
            out@ == cs@.subrange(from as int, i as int),
        decreases to - i,
    {
        out.push(cs[i]);
        assert(cs@.subrange(from as int, i + 1) == cs@.subrange(from as int, i as int).push(cs@[i as int]));
        i += 1;
    }
    out
}

/// The VEVENT bodies of a feed, in order.
pub fn vevent_blocks(content: &str) -> (r: Vec<String>)
    ensures
        r@.len() == spec_blocks(content@).len(),
        forall|k: int| 0 <= k < r@.len() ==> (#[trigger] r@[k])@ == spec_blocks(content@)[k],
{
    proof {
        reveal_strlit("BEGIN:VEVENT");
        reveal_strlit("END:VEVENT");
    }
    let un = unfold(content);
    let cs = chars_of(un.as_str());
    let begin = chars_of("BEGIN:VEVENT");
    let end = chars_of("END:VEVENT");
    let ghost all = split_on(cs@, begin@);
    let mut out: Vec<String> = Vec::new();
    let mut pos: usize = 0;
    let ghost mut done: Seq<Seq<char>> = seq![];
    assert(cs@.skip(0) == cs@);
    let n = cs.len();
    loop
        invariant_except_break
            all == done + split_on(cs@.skip(pos as int), begin@),
        invariant
            n == cs@.len(),
            pos <= cs@.len(),
            begin@ == "BEGIN:VEVENT"@,
            end@ == "END:VEVENT"@,
            begin@.len() == 12,
            end@.len() == 10,
            cs@ == spec_unfold(content@),
            all == split_on(cs@, begin@),
            out@.len() == pieces_with_end(done).len(),
            forall|k: int| 0 <= k < out@.len() ==> (#[trigger] out@[k])@ == pieces_with_end(done)[k],
        ensures
            all == done,
        decreases cs@.len() - pos,
    {
        let ghost rest = cs@.skip(pos as int);
        proof {
            lemma_find_sub(rest, begin@);
        }
        let next = find_sub_from(&cs, pos, &begin);
        proof {
            if let Some(i) = find_sub(rest, begin@) {
                assert(i + 12 <= rest.len());
                assert(rest.len() == cs@.len() - pos);
                assert(next == Some((pos + i) as usize));
            }
        }
        let cut = match next {
            Some(i) => i,
            None => cs.len(),
        };
        assert(pos <= cut <= cs@.len());
        let piece = take_prefix(&cs, pos, cut);
        let ghost pv = piece@;
        proof {
            match find_sub(rest, begin@) {
                Some(i) => {
                    assert(pv == rest.take(i));
                    assert(split_on(rest, begin@) == seq![rest.take(i)] + split_on(rest.skip(i + 12), begin@));
                    assert(rest.skip(i + 12) == cs@.skip(cut + 12));
                },
                None => {
                    assert(pv == rest);
                    assert(split_on(rest, begin@) == seq![rest]);
                },
            }
        }
        let ghost before = done;
        let piece_len = piece.len();
        assert(piece@.skip(0) == piece@);
        proof {
            lemma_find_sub(piece@, end@);
        }
        match find_sub_from(&piece, 0, &end) {
            Some(j) => {
                let block = take_prefix(&piece, 0, j);
                out.push(string_from_chars(&block));
                assert(piece@.take(j as int) == piece@.subrange(0, j as int));
            },
            None => {},
        }
        proof {
            done = before.push(pv);
            assert(done.drop_last() == before);
            assert(done.last() == pv);
            assert forall|k: int| 0 <= k < out@.len() implies (#[trigger] out@[k])@ == pieces_with_end(done)[k] by {
            }
        }
        match next {
            Some(i) => {
                proof {
                    assert(all == done + split_on(cs@.skip(i + 12), begin@));
                }
                pos = i + 12;
            },
            None => {
                proof {
                    assert(all == done);
                }
                assert(all == split_on(cs@, begin@));
                break;
            },
        }
    }
    out
}

// ── Events ─────────────────────────────────────────────────────────────────

pub open spec fn or_empty(o: Option<Seq<char>>) -> Seq<char> {
    match o {
        Some(v) => v,
        None => seq![],
    }
}

/// The properties of one VEVENT body that the agenda reads (a missing
/// one reads as empty).
pub struct EventFields {
    pub summary: Seq<char>,
    pub categories: Seq<char>,
    pub dtstart: Option<(Option<Seq<char>>, Seq<char>)>,
    pub rrule: Seq<char>,
    pub duration: Seq<char>,
    pub dtend: Seq<char>,
}

pub open spec fn fields_of(block: Seq<char>) -> EventFields {
    let ls = spec_lines(block);
    EventFields {
        summary: or_empty(spec_field_in(ls, "SUMMARY"@)),
        categories: or_empty(spec_field_value_in(ls, "CATEGORIES"@)),
        dtstart: spec_dtstart_in(ls),
        rrule: or_empty(spec_field_value_in(ls, "RRULE"@)),
        duration: or_empty(spec_field_value_in(ls, "DURATION"@)),
        dtend: or_empty(spec_dtend_in(ls)),
    }
}

/// At most the first four characters of `s`.
pub open spec fn first4(s: Seq<char>) -> Seq<char> {
    if s.len() <= 4 { s } else { s.take(4) }
}

/// An event's tag: its first category, trimmed, cut to four characters
/// and uppercased; `PERS` without categories.
pub open spec fn spec_event_tag(categories: Seq<char>) -> Seq<char> {
    if categories.len() > 0 {
        spec_to_uppercase(first4(trim_ws(spec_split(categories, ',')[0])))
    } else {
        "PERS"@
    }
}

pub fn event_tag(categories: &str) -> (r: String)
    ensures
        r@ == spec_event_tag(categories@),
{
    let cs = chars_of(categories);
    if cs.len() == 0 {
        return string_of("PERS");
    }
    let pieces = split_chars(&cs, ',');
    let first = trim_ws_chars(&pieces[0]);
    let mut cut: Vec<char> = Vec::new();
    let mut i: usize = 0;
    while i < 4 && i < first.len()
        invariant
            i <= 4,
            i <= first@.len(),
            cut@ == first@.take(i as int),
        decreases 4 - i,
    {
        cut.push(first[i]);
        assert(first@.take(i + 1) == first@.take(i as int).push(first@[i as int]));
        i += 1;
    }
    assert(cut@ == first4(first@));
    let cut_s = string_from_chars(&cut);
    to_uppercase(cut_s.as_str())
}

/// An agenda row as plain values: time, title, tag, duration.
pub type ItemView = (Seq<char>, Seq<char>, Seq<char>, Seq<char>);

pub open spec fn item_view(a: AgendaItem) -> ItemView {
    (a.time@, a.title@, a.tag@, a.duration@)
}

/// The row of one occurrence: `ALL` and no duration for an all-day one,
/// else its local `HH:MM` and the event's duration (empty when unknown).
pub open spec fn occurrence_row(summary: Seq<char>, tag: Seq<char>, o: (LocalStamp, bool), dur: Option<u32>) -> ItemView {
    if o.1 {
        ("ALL"@, summary, tag, seq![])
    } else {
        (spec_hhmm(o.0.hour, o.0.minute), summary, tag, match dur {
            Some(m) => spec_format_duration(m),
            None => seq![],
        })
    }
}

/// One row per occurrence, in order.
pub fn event_items(summary: &str, tag: &str, occ: &Vec<(LocalStamp, bool)>, dur: Option<u32>) -> (r: Vec<AgendaItem>)
    ensures
        r@.len() == occ@.len(),
        forall|k: int| 0 <= k < r@.len() ==> item_view(#[trigger] r@[k]) == occurrence_row(summary@, tag@, occ@[k], dur),
{
    proof {
        reveal_strlit("ALL");
    }
    let mut out: Vec<AgendaItem> = Vec::new();
    let mut i: usize = 0;
    while i < occ.len()
        invariant
            i <= occ@.len(),
            out@.len() == i,
            forall|k: int| 0 <= k < i ==> item_view(#[trigger] out@[k]) == occurrence_row(summary@, tag@, occ@[k], dur),
        decreases occ.len() - i,
    {
        let (l, all_day) = occ[i];
        let item = if all_day {
            AgendaItem { time: string_of("ALL"), title: string_of(summary), tag: string_of(tag), duration: String::new() }
        } else {
            AgendaItem {
                time: fmt_hhmm(l.hour, l.minute),
                title: string_of(summary),
                tag: string_of(tag),
                duration: match dur {
                    Some(m) => format_duration(m),
                    None => String::new(),
                },
            }
        };
        out.push(item);
        i += 1;
    }
    out
}

/// What holds of each row parsed from a feed, whatever the machine's zone:
/// it comes from a VEVENT of the feed with a non-empty summary and start,
/// carries that summary and that event's tag, and an all-day row has no
/// duration.
pub open spec fn row_from_feed(content: Seq<char>, v: ItemView) -> bool {
    exists|b: int| 0 <= b < spec_blocks(content).len() && {
        let f = #[trigger] fields_of(spec_blocks(content)[b]);
        &&& f.summary.len() > 0
        &&& f.dtstart matches Some(d) && d.1.len() > 0
        &&& v.1 == f.summary
        &&& v.2 == spec_event_tag(f.categories)
        &&& (v.0 == "ALL"@ ==> v.3.len() == 0)
    }
}

/// `l` falls on the date of `today`.
pub open spec fn on_day(l: LocalStamp, today: NaiveStamp) -> bool {
    l.year == today.year && l.month == today.month && l.day == today.day
}

/// The occurrences of one event on `today`. Without an RRULE: its start,
/// read as `parse_ical_dtstart` reads it, when that reading falls on
/// `today`. With one: the expansion over `today`, each reading flagged
/// all-day when the start is a bare date.
pub open spec fn occurrences_ok(
    dtstart: Seq<char>,
    tzid: Option<Seq<char>>,
    rrule: Seq<char>,
    today: NaiveStamp,
    r: Seq<(LocalStamp, bool)>,
) -> bool {
    if rrule.len() == 0 {
        exists|p: Option<(LocalStamp, bool)>| #[trigger] dtstart_ok(dtstart, tzid, p) && r == match p {
            Some(q) => if on_day(q.0, today) { seq![q] } else { seq![] },
            None => seq![],
        }
    } else {
        exists|days: Seq<LocalStamp>| #[trigger] expansion_ok(dtstart, tzid, rrule, today, days)
            && r.len() == days.len()
            && forall|i: int| 0 <= i < r.len() ==> #[trigger] r[i] == (days[i], !has_char(dtstart, 'T'))
    }
}

/// An event without a recurrence rule is listed only on the date it
/// starts: each occurrence found for `today` reads the same year, month
/// and day as `today`, so an event starting on another date, even the same
/// day of another month, gives none.
pub proof fn law_single_event_on_its_date(
    dtstart: Seq<char>,
    tzid: Option<Seq<char>>,
    today: NaiveStamp,
    r: Seq<(LocalStamp, bool)>,
)
    requires
        occurrences_ok(dtstart, tzid, Seq::<char>::empty(), today, r),
    ensures
        r.len() <= 1,
        forall|i: int| 0 <= i < r.len() ==> {
            &&& (#[trigger] r[i]).0.year == today.year
            &&& r[i].0.month == today.month
            &&& r[i].0.day == today.day
        },
{
    let p = choose|p: Option<(LocalStamp, bool)>| #[trigger] dtstart_ok(dtstart, tzid, p) && r == match p {
        Some(q) => if on_day(q.0, today) { seq![q] } else { seq![] },
        None => seq![],
    };
    match p {
        Some(q) => {
            if on_day(q.0, today) {
                assert(r == seq![q]);
            }
        },
        None => {},
    }
}

/// The occurrences of one event on `today`.
fn event_occurrences(dtstart: &str, tzid: Option<&str>, rrule: &str, today: &NaiveStamp) -> (r: Vec<(LocalStamp, bool)>)
    ensures
        occurrences_ok(dtstart@, match tzid { Some(z) => Some(z@), None => None }, rrule@, *today, r@),
        rrule@.len() == 0 ==> forall|i: int| 0 <= i < r@.len() ==> {
            &&& (#[trigger] r@[i]).0.year == today.year
            &&& r@[i].0.month == today.month
            &&& r@[i].0.day == today.day
        },
{
    let ghost tz_v = match tzid { Some(z) => Some(z@), None => None };
    if chars_of(rrule).len() == 0 {
        let mut v: Vec<(LocalStamp, bool)> = Vec::new();
        let p = parse_ical_dtstart(dtstart, tzid);
        if let Some((local, all_day)) = p {
            if local.year == today.year && local.month == today.month && local.day == today.day {
                v.push((local, all_day));
            }
        }
        assert(dtstart_ok(dtstart@, tz_v, p));
        assert(v@ == match p {
            Some(q) => if on_day(q.0, *today) { seq![q] } else { seq![] },
            None => Seq::<(LocalStamp, bool)>::empty(),
        });
        proof {
            assert(rrule@.len() == 0);
            law_single_event_on_its_date(dtstart@, tz_v, *today, v@);
        }
        v
    } else {
        let all_day = !has_char_exec(&chars_of(dtstart), 'T');
        let days = expand_rrule_for_day(dtstart, tzid, rrule, today);
        let mut v: Vec<(LocalStamp, bool)> = Vec::new();
        let mut i: usize = 0;
        while i < days.len()
            invariant
                i <= days@.len(),
                v@.len() == i,
                all_day == !has_char(dtstart@, 'T'),
                forall|k: int| 0 <= k < i ==> #[trigger] v@[k] == (days@[k], all_day),
            decreases days.len() - i,
        {
            v.push((days[i], all_day));
            i += 1;
        }
        assert(expansion_ok(dtstart@, tz_v, rrule@, *today, days@));
        v
    }
}

/// The event's length as `compute_duration_minutes` may give it for these
/// fields.
pub open spec fn duration_ok(dur: Seq<char>, start: Seq<char>, end: Seq<char>, tzid: Option<Seq<char>>, r: Option<u32>) -> bool {
    match spec_duration_minutes(dur) {
        Some(m) => r == Some(m),
        None => if end.len() == 0 {
            r is None
        } else {
            exists|ps: Option<(LocalStamp, bool)>, pe: Option<(LocalStamp, bool)>|
                #[trigger] dtstart_ok(start, tzid, ps) && #[trigger] dtstart_ok(end, tzid, pe) && r == match (ps, pe) {
                    (Some(s), Some(e)) => spec_minutes_between(s.0.ts, e.0.ts),
                    _ => None,
                }
        },
    }
}

/// The event has a non-empty summary and a non-empty start.
pub open spec fn listed_event(f: EventFields) -> bool {
    f.summary.len() > 0 && (f.dtstart matches Some(d) && d.1.len() > 0)
}

/// `occ` and `dur` are what the event's occurrences on `today` and its
/// length may be.
pub open spec fn event_ok(f: EventFields, today: NaiveStamp, occ: Seq<(LocalStamp, bool)>, dur: Option<u32>) -> bool {
    match f.dtstart {
        Some((tz, start)) => listed_event(f) ==> occurrences_ok(start, tz, f.rrule, today, occ)
            && duration_ok(f.duration, start, f.dtend, tz, dur),
        None => true,
    }
}

/// The rows of one event: one per occurrence for a listed event, none
/// otherwise.
pub open spec fn event_rows(f: EventFields, occ: Seq<(LocalStamp, bool)>, dur: Option<u32>) -> Seq<ItemView> {
    if listed_event(f) {
        occ.map_values(|o: (LocalStamp, bool)| occurrence_row(f.summary, spec_event_tag(f.categories), o, dur))
    } else {
        seq![]
    }
}

/// The rows of the first `n` events of `blocks`, in feed order.
pub open spec fn feed_rows(
    blocks: Seq<Seq<char>>,
    occs: Seq<Seq<(LocalStamp, bool)>>,
    durs: Seq<Option<u32>>,
    n: int,
) -> Seq<ItemView>
    decreases n,
{
    if n <= 0 {
        seq![]
    } else {
        feed_rows(blocks, occs, durs, n - 1) + event_rows(fields_of(blocks[n - 1]), occs[n - 1], durs[n - 1])
    }
}

/// `v` are the rows of feed `content` for `today`: every VEVENT in order,
/// each with its occurrences and length as far as the machine's zone lets
/// them be read.
pub open spec fn feed_ok(content: Seq<char>, today: NaiveStamp, v: Seq<ItemView>) -> bool {
    let blocks = spec_blocks(content);
    exists|occs: Seq<Seq<(LocalStamp, bool)>>, durs: Seq<Option<u32>>|
        #![trigger feed_rows(blocks, occs, durs, blocks.len() as int)]
        occs.len() == blocks.len() && durs.len() == blocks.len()
        && (forall|b: int| 0 <= b < blocks.len() ==> #[trigger] event_ok(fields_of(blocks[b]), today, occs[b], durs[b]))
        && v == feed_rows(blocks, occs, durs, blocks.len() as int)
}

/// The agenda rows of one feed for `today`: for every VEVENT with a
/// summary and a start, one row per occurrence on `today` (the start
/// itself when there is no RRULE, else the expanded recurrences).
pub fn parse_ical_events(content: &str, today: &NaiveStamp) -> (r: Vec<AgendaItem>)
    ensures
        feed_ok(content@, *today, views_of(r@)),
        forall|k: int| 0 <= k < r@.len() ==> row_from_feed(content@, item_view(#[trigger] r@[k])),
{
    proof {
        reveal_strlit("SUMMARY");
        reveal_strlit("CATEGORIES");
        reveal_strlit("RRULE");
        reveal_strlit("DURATION");
        reveal_strlit("ALL");
    }
    let blocks = vevent_blocks(content);
    let ghost sb = spec_blocks(content@);
    let mut items: Vec<AgendaItem> = Vec::new();
    let ghost mut occs: Seq<Seq<(LocalStamp, bool)>> = seq![];
    let ghost mut durs: Seq<Option<u32>> = seq![];
    let mut b: usize = 0;
    while b < blocks.len()
        invariant
            b <= blocks@.len(),
            sb == spec_blocks(content@),
            blocks@.len() == sb.len(),
            forall|k: int| 0 <= k < blocks@.len() ==> (#[trigger] blocks@[k])@ == sb[k],
            forall|k: int| 0 <= k < items@.len() ==> row_from_feed(content@, item_view(#[trigger] items@[k])),
            occs.len() == b,
            durs.len() == b,
            forall|k: int| 0 <= k < b ==> #[trigger] event_ok(fields_of(sb[k]), *today, occs[k], durs[k]),
            views_of(items@) == feed_rows(sb, occs, durs, b as int),
        decreases blocks.len() - b,
    {
        let block = blocks[b].as_str();
        let ghost f = fields_of(block@);
        let summary = match ical_field(block, "SUMMARY") { Some(v) => v, None => String::new() };
        let categories = match ical_field_value(block, "CATEGORIES") { Some(v) => v, None => String::new() };
        let start = ical_dtstart(block);
        let rrule = match ical_field_value(block, "RRULE") { Some(v) => v, None => String::new() };
        let duration_str = match ical_field_value(block, "DURATION") { Some(v) => v, None => String::new() };
        let dtend = match ical_dtend(block) { Some(v) => v, None => String::new() };
        assert(fields_of(sb[b as int]) == f);
        assert(summary@ == f.summary);
        assert(categories@ == f.categories);
        assert(rrule@ == f.rrule);
        assert(duration_str@ == f.duration);
        assert(dtend@ == f.dtend);
        let ghost mut g_occ: Seq<(LocalStamp, bool)> = seq![];
        let ghost mut g_dur: Option<u32> = None;
        let ghost items_before = items@;
        if let Some(st) = start {
            let tz: Option<&str> = match &st.tzid { Some(z) => Some(z.as_str()), None => None };
            let dur = compute_duration_minutes(duration_str.as_str(), st.value.as_str(), dtend.as_str(), tz);
            if chars_of(summary.as_str()).len() > 0 && chars_of(st.value.as_str()).len() > 0 {
                let occ = event_occurrences(st.value.as_str(), tz, rrule.as_str(), today);
                let tag = event_tag(categories.as_str());
                let mut rows = event_items(summary.as_str(), tag.as_str(), &occ, dur);
                proof {
                    assert(fields_of(spec_blocks(content@)[b as int]) == f);
                    assert(summary@ == f.summary);
                    assert(categories@ == f.categories);
                    assert(tag@ == spec_event_tag(f.categories));
                    assert(f.dtstart == Some((match st.tzid { Some(z) => Some(z@), None => None }, st.value@)));
                    assert(st.value@.len() > 0);
                    reveal_strlit(":");
                    assert forall|j: int| 0 <= j < rows@.len() implies row_from_feed(content@, item_view(#[trigger] rows@[j])) by {
                        let v = item_view(rows@[j]);
                        assert(v == occurrence_row(summary@, tag@, occ@[j], dur));
                        if !occ@[j].1 {
                            lemma_dec_pad_len(occ@[j].0.hour as nat, 2);
                            lemma_dec_pad_len(occ@[j].0.minute as nat, 2);
                            assert(v.0.len() >= 5);
                            reveal_strlit("ALL");
                            assert("ALL"@.len() == 3);
                            assert(v.0 != "ALL"@);
                        }
                        assert(fields_of(spec_blocks(content@)[b as int]) == f);
                        assert(0 <= b < spec_blocks(content@).len());
                    }
                }
                let ghost before = items@;
                let ghost rv = rows@;
                proof {
                    g_occ = occ@;
                    g_dur = dur;
                    assert(views_of(rv) =~= event_rows(f, occ@, dur));
                }
                items.append(&mut rows);
                assert forall|j: int| 0 <= j < items@.len() implies row_from_feed(content@, item_view(#[trigger] items@[j])) by {
                    if j < before.len() {
                        assert(items@[j] == before[j]);
                    } else {
                        assert(items@[j] == rv[j - before.len()]);
                    }
                }
                assert(views_of(items@) =~= views_of(before) + views_of(rv));
            } else {
                assert(!listed_event(f));
            }
        } else {
            assert(!listed_event(f));
        }
        proof {
            assert(event_ok(f, *today, g_occ, g_dur));
            if !listed_event(f) {
                assert(items@ == items_before);
                assert(event_rows(f, g_occ, g_dur) =~= Seq::<ItemView>::empty());
            }
            lemma_feed_rows_prefix(sb, occs, durs, occs.push(g_occ), durs.push(g_dur), b as int);
            occs = occs.push(g_occ);
            durs = durs.push(g_dur);
            assert(occs[b as int] == g_occ && durs[b as int] == g_dur);
            assert(views_of(items@) =~= feed_rows(sb, occs, durs, b + 1));
        }
        b += 1;
    }
    assert(feed_rows(sb, occs, durs, sb.len() as int) == views_of(items@));
    items
}

proof fn lemma_feed_rows_prefix(
    blocks: Seq<Seq<char>>,
    o1: Seq<Seq<(LocalStamp, bool)>>,
    d1: Seq<Option<u32>>,
    o2: Seq<Seq<(LocalStamp, bool)>>,
    d2: Seq<Option<u32>>,
    n: int,
)
    requires
        0 <= n <= o1.len(),
        n <= o2.len(),
        n <= d1.len(),
        n <= d2.len(),
        forall|k: int| 0 <= k < n ==> o1[k] == o2[k] && d1[k] == d2[k],
    ensures
        feed_rows(blocks, o1, d1, n) == feed_rows(blocks, o2, d2, n),
    decreases n,
{
    if n > 0 {
        lemma_feed_rows_prefix(blocks, o1, d1, o2, d2, n - 1);
    }
}

// ── The merged agenda ──────────────────────────────────────────────────────

/// Rows order by time, then title (string order).
pub open spec fn key_lt(a: ItemView, b: ItemView) -> bool {
    lex_lt(a.0, b.0) || (a.0 == b.0 && lex_lt(a.1, b.1))
}

/// Same time and title: one event seen twice.
pub open spec fn same_key(a: ItemView, b: ItemView) -> bool {
    a.0 == b.0 && a.1 == b.1
}

/// Inserts `x` after every row not ordered after it.
pub open spec fn insert_by_key(s: Seq<ItemView>, x: ItemView) -> Seq<ItemView>
    decreases s.len(),
{
    if s.len() == 0 {
        seq![x]
    } else if !key_lt(x, s.last()) {
        s.push(x)
    } else {
        insert_by_key(s.drop_last(), x).push(s.last())
    }
}

/// Stable sort by (time, title).
pub open spec fn sort_by_key(s: Seq<ItemView>) -> Seq<ItemView>
    decreases s.len(),
{
    if s.len() == 0 {
        seq![]
    } else {
        insert_by_key(sort_by_key(s.drop_last()), s.last())
    }
}

/// Drops each row with the same time and title as the last row kept.
pub open spec fn dedup_key(s: Seq<ItemView>) -> Seq<ItemView>
    decreases s.len(),
{
    if s.len() == 0 {
        seq![]
    } else {
        let d = dedup_key(s.drop_last());
        if d.len() > 0 && same_key(d.last(), s.last()) {
            d
        } else {
            d.push(s.last())
        }
    }
}

/// At most the first 20 rows.
pub open spec fn first20(s: Seq<ItemView>) -> Seq<ItemView> {
    if s.len() <= 20 { s } else { s.take(20) }
}

/// The merged agenda: sorted by (time, title), duplicates dropped, at most
/// 20 rows.
pub open spec fn spec_finalize(s: Seq<ItemView>) -> Seq<ItemView> {
    first20(dedup_key(sort_by_key(s)))
}

fn key_lt_exec(a: &AgendaItem, b: &AgendaItem) -> (r: bool)
    ensures
        r == key_lt(item_view(*a), item_view(*b)),
{
    let at = chars_of(a.time.as_str());
    let bt = chars_of(b.time.as_str());
    if chars_lt(&at, &bt) {
        return true;
    }
    if !chars_eq(&at, &bt) {
        return false;
    }
    chars_lt(&chars_of(a.title.as_str()), &chars_of(b.title.as_str()))
}

fn same_key_exec(a: &AgendaItem, b: &AgendaItem) -> (r: bool)
    ensures
        r == same_key(item_view(*a), item_view(*b)),
{
    chars_eq(&chars_of(a.time.as_str()), &chars_of(b.time.as_str()))
        && chars_eq(&chars_of(a.title.as_str()), &chars_of(b.title.as_str()))
}

pub open spec fn views_of(v: Seq<AgendaItem>) -> Seq<ItemView> {
    v.map_values(|a: AgendaItem| item_view(a))
}

fn insert_item(v: &mut Vec<AgendaItem>, x: AgendaItem)
    ensures
        views_of(final(v)@) == insert_by_key(views_of(old(v)@), item_view(x)),
{
    let ghost s = views_of(v@);
    let ghost xv = item_view(x);
    let mut pos = v.len();
    assert(s.take(pos as int) == s);
    assert(s.skip(pos as int) == Seq::<ItemView>::empty());
    assert(insert_by_key(s, xv) + Seq::<ItemView>::empty() == insert_by_key(s, xv));
    while pos > 0 && key_lt_exec(&x, &v[pos - 1])
        invariant
            pos <= v@.len(),
            s == views_of(v@),
            xv == item_view(x),
            insert_by_key(s, xv) == insert_by_key(s.take(pos as int), xv) + s.skip(pos as int),
        decreases pos,
    {
        let ghost t = s.take(pos as int);
        assert(t.last() == s[pos - 1]);
        assert(t.drop_last() == s.take(pos - 1));
        assert(s.skip(pos - 1) == seq![s[pos - 1]] + s.skip(pos as int));
        assert(insert_by_key(t, xv) == insert_by_key(s.take(pos - 1), xv).push(s[pos - 1]));
        assert(insert_by_key(s.take(pos - 1), xv).push(s[pos - 1]) + s.skip(pos as int) == insert_by_key(s.take(pos - 1), xv) + s.skip(pos - 1));
        pos -= 1;
    }
    proof {
        let t = s.take(pos as int);
        if pos > 0 {
            assert(t.last() == s[pos - 1]);
            assert(insert_by_key(t, xv) == t.push(xv));
        } else {
            assert(insert_by_key(t, xv) == seq![xv]);
            assert(t.push(xv) == seq![xv]);
        }
    }
    let ghost old_v = v@;
    v.insert(pos, x);
    assert(views_of(v@) =~= s.take(pos as int).push(xv) + s.skip(pos as int)) by {
        assert forall|k: int| 0 <= k < v@.len() implies #[trigger] views_of(v@)[k] == (s.take(pos as int).push(xv) + s.skip(pos as int))[k] by {
            if k < pos {
                assert(v@[k] == old_v[k]);
            } else if k > pos {
                assert(v@[k] == old_v[k - 1]);
            }
        }
    }
}

/// Sorts by (time, title), drops duplicates and keeps at most 20 rows.
pub fn finalize_agenda(items: Vec<AgendaItem>) -> (r: Vec<AgendaItem>)
    ensures
        views_of(r@) == spec_finalize(views_of(items@)),
{
    let ghost src = views_of(items@);
    let mut items = items;
    let mut sorted: Vec<AgendaItem> = Vec::new();
    let ghost mut taken: Seq<AgendaItem> = seq![];
    let n = items.len();
    assert(views_of(sorted@) == sort_by_key(src.take(0)));
    let mut i: usize = 0;
    while i < n
        invariant
            n == src.len(),
            i <= n,
            items@.len() == n - i,
            forall|k: int| 0 <= k < n - i ==> #[trigger] item_view(items@[k]) == src[k + i],
            views_of(sorted@) == sort_by_key(src.take(i as int)),
        decreases n - i,
    {
        let ghost before = items@;
        let x = items.remove(0);
        assert forall|k: int| 0 <= k < n - i - 1 implies #[trigger] item_view(items@[k]) == src[k + i + 1] by {
            assert(items@[k] == before[k + 1]);
        }
        assert(item_view(x) == src[i as int]);
        assert(src.take(i + 1).drop_last() == src.take(i as int));
        insert_item(&mut sorted, x);
        i += 1;
    }
    assert(src.take(n as int) == src);
    let ghost sv = views_of(sorted@);
    let mut out: Vec<AgendaItem> = Vec::new();
    let m = sorted.len();
    let mut j: usize = 0;
    while j < m
        invariant
            m == sv.len(),
            j <= m,
            sorted@.len() == m - j,
            forall|k: int| 0 <= k < m - j ==> #[trigger] item_view(sorted@[k]) == sv[k + j],
            views_of(out@) == dedup_key(sv.take(j as int)),
        decreases m - j,
    {
        let ghost before_s = sorted@;
        let x = sorted.remove(0);
        assert forall|k: int| 0 <= k < m - j - 1 implies #[trigger] item_view(sorted@[k]) == sv[k + j + 1] by {
            assert(sorted@[k] == before_s[k + 1]);
        }
        assert(item_view(x) == sv[j as int]);
        assert(sv.take(j + 1).drop_last() == sv.take(j as int));
        assert(sv.take(j + 1).last() == sv[j as int]);
        let keep = out.len() == 0 || !same_key_exec(&out[out.len() - 1], &x);
        if keep {
            let ghost before = views_of(out@);
            out.push(x);
            assert(views_of(out@) =~= before.push(item_view(x)));
        }
        j += 1;
    }
    assert(sv.take(m as int) == sv);
    let ghost dv = views_of(out@);
    out.truncate(20);
    assert(views_of(out@) =~= first20(dv));
    out
}

// ── Order of the merged agenda ─────────────────────────────────────────────

/// No row is ordered before an earlier one.
pub open spec fn sorted_by_key(s: Seq<ItemView>) -> bool {
    forall|i: int, j: int| 0 <= i < j < s.len() ==> !key_lt(#[trigger] s[j], #[trigger] s[i])
}

/// Every row is ordered before every later one: sorted, with no two rows
/// sharing a time and title.
pub open spec fn strictly_by_key(s: Seq<ItemView>) -> bool {
    forall|i: int, j: int| 0 <= i < j < s.len() ==> key_lt(#[trigger] s[i], #[trigger] s[j])
}

proof fn lemma_key_order(a: ItemView, b: ItemView, c: ItemView)
    ensures
        !key_lt(a, a),
        key_lt(a, b) || key_lt(b, a) || same_key(a, b),
        key_lt(a, b) ==> !key_lt(b, a),
        key_lt(a, b) && key_lt(b, c) ==> key_lt(a, c),
        same_key(a, b) ==> (key_lt(a, c) == key_lt(b, c)) && (key_lt(c, a) == key_lt(c, b)),
{
    lemma_lex_trichotomy(a.0, b.0);
    lemma_lex_trichotomy(a.1, b.1);
    lemma_lex_trichotomy(a.0, a.0);
    lemma_lex_trichotomy(a.1, a.1);
    if lex_lt(a.0, b.0) && lex_lt(b.0, c.0) {
        lemma_lex_trans(a.0, b.0, c.0);
    }
    if lex_lt(a.1, b.1) && lex_lt(b.1, c.1) {
        lemma_lex_trans(a.1, b.1, c.1);
    }
}

proof fn lemma_insert_members(s: Seq<ItemView>, x: ItemView)
    ensures
        insert_by_key(s, x).len() == s.len() + 1,
        forall|e: ItemView| insert_by_key(s, x).contains(e) ==> e == x || s.contains(e),
    decreases s.len(),
{
    if s.len() > 0 {
        if !key_lt(x, s.last()) {
            assert forall|e: ItemView| s.push(x).contains(e) implies e == x || s.contains(e) by {
                let k = choose|k: int| 0 <= k < s.push(x).len() && s.push(x)[k] == e;
                if k < s.len() {
                    assert(s[k] == e);
                }
            }
        } else {
            let d = s.drop_last();
            lemma_insert_members(d, x);
            let t = insert_by_key(d, x);
            assert forall|e: ItemView| t.push(s.last()).contains(e) implies e == x || s.contains(e) by {
                let k = choose|k: int| 0 <= k < t.push(s.last()).len() && t.push(s.last())[k] == e;
                if k < t.len() {
                    assert(t[k] == e);
                    assert(t.contains(e));
                    if e != x {
                        assert(d.contains(e));
                        let q = choose|q: int| 0 <= q < d.len() && d[q] == e;
                        assert(s[q] == e);
                    }
                } else {
                    assert(s[s.len() - 1] == e);
                }
            }
        }
    }
}

proof fn lemma_insert_sorted(s: Seq<ItemView>, x: ItemView)
    requires
        sorted_by_key(s),
    ensures
        sorted_by_key(insert_by_key(s, x)),
    decreases s.len(),
{
    lemma_insert_members(s, x);
    if s.len() == 0 {
    } else if !key_lt(x, s.last()) {
        let t = s.push(x);
        assert forall|i: int, j: int| 0 <= i < j < t.len() implies !key_lt(#[trigger] t[j], #[trigger] t[i]) by {
            if j == s.len() {
                let last = s.last();
                lemma_key_order(x, t[i], last);
                lemma_key_order(last, x, t[i]);
                lemma_key_order(x, last, t[i]);
                if i < s.len() - 1 {
                    assert(!key_lt(s[s.len() - 1], s[i]));
                }
            }
        }
    } else {
        let d = s.drop_last();
        let last = s.last();
        assert(sorted_by_key(d)) by {
            assert forall|i: int, j: int| 0 <= i < j < d.len() implies !key_lt(#[trigger] d[j], #[trigger] d[i]) by {
                assert(d[i] == s[i] && d[j] == s[j]);
            }
        }
        lemma_insert_sorted(d, x);
        lemma_insert_members(d, x);
        let t = insert_by_key(d, x);
        let u = t.push(last);
        assert forall|i: int, j: int| 0 <= i < j < u.len() implies !key_lt(#[trigger] u[j], #[trigger] u[i]) by {
            if j == t.len() {
                let e = t[i];
                assert(t.contains(e));
                if e == x {
                    lemma_key_order(x, last, last);
                } else {
                    assert(d.contains(e));
                    let q = choose|q: int| 0 <= q < d.len() && d[q] == e;
                    assert(s[q] == e);
                    assert(!key_lt(s[s.len() - 1], s[q]));
                }
            } else {
                assert(u[i] == t[i] && u[j] == t[j]);
            }
        }
    }
}

proof fn lemma_sort_sorted(s: Seq<ItemView>)
    ensures
        sorted_by_key(sort_by_key(s)),
        sort_by_key(s).len() == s.len(),
        forall|e: ItemView| sort_by_key(s).contains(e) ==> s.contains(e),
    decreases s.len(),
{
    if s.len() > 0 {
        let d = s.drop_last();
        lemma_sort_sorted(d);
        lemma_insert_sorted(sort_by_key(d), s.last());
        lemma_insert_members(sort_by_key(d), s.last());
        assert forall|e: ItemView| sort_by_key(s).contains(e) implies s.contains(e) by {
            if e != s.last() {
                assert(insert_by_key(sort_by_key(d), s.last()).contains(e));
                assert(sort_by_key(d).contains(e));
                assert(d.contains(e));
                let q = choose|q: int| 0 <= q < d.len() && d[q] == e;
                assert(s[q] == e);
            } else {
                assert(s[s.len() - 1] == e);
            }
        }
    }
}

proof fn lemma_dedup(s: Seq<ItemView>)
    requires
        sorted_by_key(s),
    ensures
        strictly_by_key(dedup_key(s)),
        dedup_key(s).len() <= s.len(),
        forall|e: ItemView| dedup_key(s).contains(e) ==> s.contains(e),
    decreases s.len(),
{
    if s.len() > 0 {
        let d0 = s.drop_last();
        let last = s.last();
        assert(sorted_by_key(d0)) by {
            assert forall|i: int, j: int| 0 <= i < j < d0.len() implies !key_lt(#[trigger] d0[j], #[trigger] d0[i]) by {
                assert(d0[i] == s[i] && d0[j] == s[j]);
            }
        }
        lemma_dedup(d0);
        let d = dedup_key(d0);
        assert forall|e: ItemView| d.contains(e) implies s.contains(e) by {
            assert(dedup_key(d0).contains(e));
            assert(d0.contains(e));
            let q = choose|q: int| 0 <= q < d0.len() && d0[q] == e;
            assert(s[q] == e);
        }
        if !(d.len() > 0 && same_key(d.last(), last)) {
            let u = d.push(last);
            if d.len() > 0 {
                let dl = d.last();
                assert(d[d.len() - 1] == dl);
                assert(d.contains(dl));
                assert(s.contains(dl));
                assert(d0.contains(dl));
                let q = choose|q: int| 0 <= q < d0.len() && d0[q] == dl;
                assert(s[q] == dl);
                assert(!key_lt(s[s.len() - 1], s[q]));
                lemma_key_order(dl, last, last);
                assert(key_lt(dl, last));
                assert forall|i: int, j: int| 0 <= i < j < u.len() implies key_lt(#[trigger] u[i], #[trigger] u[j]) by {
                    if j == d.len() {
                        if i < d.len() - 1 {
                            assert(key_lt(d[i], d[d.len() - 1]));
                            lemma_key_order(d[i], dl, last);
                        }
                    } else {
                        assert(u[i] == d[i] && u[j] == d[j]);
                    }
                }
            }
            assert forall|e: ItemView| u.contains(e) implies s.contains(e) by {
                let k = choose|k: int| 0 <= k < u.len() && u[k] == e;
                if k < d.len() {
                    assert(d.contains(e));
                } else {
                    assert(s[s.len() - 1] == e);
                }
            }
        }
    }
}

/// The merged agenda is in (time, title) order with no two rows sharing a
/// time and title, holds at most 20 rows, and only rows it was given.
pub proof fn law_agenda_order(s: Seq<ItemView>)
    ensures
        strictly_by_key(spec_finalize(s)),
        spec_finalize(s).len() <= 20,
        forall|e: ItemView| spec_finalize(s).contains(e) ==> s.contains(e),
{
    lemma_sort_sorted(s);
    lemma_dedup(sort_by_key(s));
    let d = dedup_key(sort_by_key(s));
    let f = first20(d);
    assert forall|i: int, j: int| 0 <= i < j < f.len() implies key_lt(#[trigger] f[i], #[trigger] f[j]) by {
        assert(f[i] == d[i] && f[j] == d[j]);
    }
    assert forall|e: ItemView| f.contains(e) implies s.contains(e) by {
        let k = choose|k: int| 0 <= k < f.len() && f[k] == e;
        assert(d[k] == e);
        assert(d.contains(e));
        assert(sort_by_key(s).contains(e));
    }
}

/// The rows of the first `n` feeds, one after the other.
pub open spec fn all_rows(rows: Seq<Seq<ItemView>>, n: int) -> Seq<ItemView>
    decreases n,
{
    if n <= 0 { seq![] } else { all_rows(rows, n - 1) + rows[n - 1] }
}

proof fn lemma_all_rows_prefix(a: Seq<Seq<ItemView>>, b: Seq<Seq<ItemView>>, n: int)
    requires
        0 <= n <= a.len(),
        n <= b.len(),
        forall|k: int| 0 <= k < n ==> a[k] == b[k],
    ensures
        all_rows(a, n) == all_rows(b, n),
    decreases n,
{
    if n > 0 {
        lemma_all_rows_prefix(a, b, n - 1);
    }
}

/// Today's agenda from the bodies of the fetched feeds: every feed's rows,
/// merged by `finalize_agenda`. The rows are in (time, title) order without
/// repeats, at most 20, each from one of the feeds.
pub fn agenda_items(bodies: &Vec<String>, today: &NaiveStamp) -> (r: Vec<AgendaItem>)
    ensures
        exists|rows: Seq<Seq<ItemView>>|
            #![trigger all_rows(rows, bodies@.len() as int)]
            rows.len() == bodies@.len()
            && (forall|b: int| 0 <= b < bodies@.len() ==> #[trigger] feed_ok(bodies@[b]@, *today, rows[b]))
            && views_of(r@) == spec_finalize(all_rows(rows, bodies@.len() as int)),
        strictly_by_key(views_of(r@)),
        r@.len() <= 20,
        forall|k: int| 0 <= k < r@.len() ==> exists|b: int| 0 <= b < bodies@.len()
            && row_from_feed(bodies@[b]@, #[trigger] item_view(r@[k])),
{
    let mut all: Vec<AgendaItem> = Vec::new();
    let ghost mut rows_g: Seq<Seq<ItemView>> = seq![];
    let mut i: usize = 0;
    while i < bodies.len()
        invariant
            i <= bodies@.len(),
            rows_g.len() == i,
            forall|b: int| 0 <= b < i ==> #[trigger] feed_ok(bodies@[b]@, *today, rows_g[b]),
            views_of(all@) == all_rows(rows_g, i as int),
            forall|k: int| 0 <= k < all@.len() ==> exists|b: int| 0 <= b < bodies@.len()
                && row_from_feed(bodies@[b]@, #[trigger] item_view(all@[k])),
        decreases bodies.len() - i,
    {
        let mut rows = parse_ical_events(bodies[i].as_str(), today);
        let ghost before = all@;
        let ghost rv = rows@;
        all.append(&mut rows);
        assert forall|k: int| 0 <= k < all@.len() implies exists|b: int| 0 <= b < bodies@.len()
            && row_from_feed(bodies@[b]@, #[trigger] item_view(all@[k])) by {
            if k < before.len() {
                assert(all@[k] == before[k]);
            } else {
                assert(all@[k] == rv[k - before.len()]);
                assert(row_from_feed(bodies@[i as int]@, item_view(all@[k])));
            }
        }
        proof {
            lemma_all_rows_prefix(rows_g, rows_g.push(views_of(rv)), i as int);
            rows_g = rows_g.push(views_of(rv));
            assert(views_of(all@) =~= views_of(before) + views_of(rv));
            assert(rows_g[i as int] == views_of(rv));
        }
        i += 1;
    }
    assert(views_of(all@) == all_rows(rows_g, bodies@.len() as int));
    let ghost src = views_of(all@);
    let r = finalize_agenda(all);
    proof {
        law_agenda_order(src);
        assert forall|k: int| 0 <= k < r@.len() implies exists|b: int| 0 <= b < bodies@.len()
            && row_from_feed(bodies@[b]@, #[trigger] item_view(r@[k])) by {
            let e = views_of(r@)[k];
            assert(spec_finalize(src)[k] == e);
            assert(spec_finalize(src).contains(e));
            assert(src.contains(e));
            let q = choose|q: int| 0 <= q < src.len() && src[q] == e;
            assert(item_view(all@[q]) == e);
        }
    }
    r
}

} // verus!
