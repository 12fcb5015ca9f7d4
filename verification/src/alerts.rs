//! Alertmanager alerts → OPS panel rows: drop the Watchdog heartbeat and
//! info-level noise, shorten each alert to a level, a local time and a
//! one-line message, keep at most twenty, errors first.

use vstd::prelude::*;
use crate::clock::{local_at, local_range, spec_hhmm, LocalStamp};
use crate::data::Alert;
use crate::text::{chars_of, push_all, push_str, str_is, string_from_chars, string_of, take_chars};

verus! {

/// The fields of one Alertmanager alert that the panel reads; `None` where
/// the JSON has no string there.
pub struct RawAlert {
    pub alertname: Option<String>,
    pub severity: Option<String>,
    pub starts_at: Option<String>,
    pub instance: Option<String>,
    pub pod: Option<String>,
    pub namespace: Option<String>,
    pub summary: Option<String>,
    pub description: Option<String>,
}

pub open spec fn opt_view(o: Option<String>) -> Option<Seq<char>> {
    match o {
        Some(s) => Some(s@),
        None => None,
    }
}

pub open spec fn or_default(o: Option<Seq<char>>, d: Seq<char>) -> Seq<char> {
    match o {
        Some(s) => s,
        None => d,
    }
}

/// Severity label, `info` when absent.
pub open spec fn severity_of(a: RawAlert) -> Seq<char> {
    or_default(opt_view(a.severity), "info"@)
}

/// The panel shows the alert: not the Watchdog heartbeat, and severity
/// critical, error or warning.
pub open spec fn shown(a: RawAlert) -> bool {
    &&& opt_view(a.alertname) != Some("Watchdog"@)
    &&& (severity_of(a) == "critical"@ || severity_of(a) == "error"@ || severity_of(a) == "warning"@)
}

/// `ERR` for critical and error, `WRN` otherwise.
pub open spec fn level_of(a: RawAlert) -> Seq<char> {
    if severity_of(a) == "critical"@ || severity_of(a) == "error"@ {
        "ERR"@
    } else {
        "WRN"@
    }
}

/// First `n` characters.
pub open spec fn take_n(s: Seq<char>, n: int) -> Seq<char> {
    if s.len() <= n { s } else { s.take(n) }
}

/// The offending target: instance, else pod, else namespace, else empty.
pub open spec fn target_of(a: RawAlert) -> Seq<char> {
    match opt_view(a.instance) {
        Some(t) => t,
        None => match opt_view(a.pod) {
            Some(t) => t,
            None => or_default(opt_view(a.namespace), seq![]),
        },
    }
}

/// `alertname · target`, the bare alert name, or the summary/description,
/// cut to 60 characters.
pub open spec fn message_of(a: RawAlert) -> Seq<char> {
    let name = or_default(opt_view(a.alertname), seq![]);
    let target = target_of(a);
    if name.len() > 0 && target.len() > 0 {
        take_n(name + " · "@ + target, 60)
    } else if name.len() > 0 {
        take_n(name, 60)
    } else {
        take_n(
            match opt_view(a.summary) {
                Some(s) => s,
                None => or_default(opt_view(a.description), "unknown alert"@),
            },
            60,
        )
    }
}

/// `HH:MM` of the start in local time, `--:--` when unknown.
pub open spec fn time_of(t: Option<LocalStamp>) -> Seq<char> {
    match t {
        Some(l) => spec_hhmm(l.hour, l.minute),
        None => "--:--"@,
    }
}

/// A panel row as plain text: level, time, message.
pub type RowView = (Seq<char>, Seq<char>, Seq<char>);

pub open spec fn row_view(a: Alert) -> RowView {
    (a.level@, a.time@, a.message@)
}

/// Rows of the shown alerts of `raw`, in order (`times[i]` is the local
/// start time of `raw[i]`).
pub open spec fn shown_rows(raw: Seq<RawAlert>, times: Seq<Option<LocalStamp>>) -> Seq<RowView>
    decreases raw.len(),
{
    if raw.len() == 0 {
        seq![]
    } else {
        let init = shown_rows(raw.drop_last(), times);
        let a = raw.last();
        if shown(a) {
            init.push((level_of(a), time_of(times[raw.len() - 1]), message_of(a)))
        } else {
            init
        }
    }
}

/// Rows whose level is (`err`) or is not (`!err`) `ERR`, in order.
pub open spec fn rows_with_level(rows: Seq<RowView>, err: bool) -> Seq<RowView>
    decreases rows.len(),
{
    if rows.len() == 0 {
        seq![]
    } else {
        let init = rows_with_level(rows.drop_last(), err);
        if (rows.last().0 == "ERR"@) == err {
            init.push(rows.last())
        } else {
            init
        }
    }
}

/// The OPS rows: the first twenty shown alerts, errors before warnings,
/// each group in feed order.
pub open spec fn spec_alert_rows(raw: Seq<RawAlert>, times: Seq<Option<LocalStamp>>) -> Seq<RowView> {
    let first = take_rows(shown_rows(raw, times), 20);
    rows_with_level(first, true) + rows_with_level(first, false)
}

pub open spec fn take_rows(rows: Seq<RowView>, n: int) -> Seq<RowView> {
    if rows.len() <= n { rows } else { rows.take(n) }
}

fn opt_is(o: &Option<String>, lit: &str) -> (r: bool)
    ensures
        r == (opt_view(*o) == Some(lit@)),
{
    match o {
        Some(s) => str_is(s.as_str(), lit),
        None => false,
    }
}

fn opt_chars(o: &Option<String>) -> (r: Option<Vec<char>>)
    ensures
        match r {
            Some(v) => opt_view(*o) == Some(v@),
            None => o is None,
        },
{
    match o {
        Some(s) => Some(chars_of(s.as_str())),
        None => None,
    }
}

fn message(a: &RawAlert) -> (r: String)
    ensures
        r@ == message_of(*a),
{
    let name: Vec<char> = match opt_chars(&a.alertname) {
        Some(v) => v,
        None => Vec::new(),
    };
    let target: Vec<char> = match opt_chars(&a.instance) {
        Some(t) => t,
        None => match opt_chars(&a.pod) {
            Some(t) => t,
            None => match opt_chars(&a.namespace) {
                Some(t) => t,
                None => Vec::new(),
            },
        },
    };
    let full: Vec<char> = if name.len() > 0 && target.len() > 0 {
        let mut v = Vec::new();
        push_all(&mut v, &name);
        push_str(&mut v, " · ");
        push_all(&mut v, &target);
        v
    } else if name.len() > 0 {
        name
    } else {
        match opt_chars(&a.summary) {
            Some(s) => s,
            None => match opt_chars(&a.description) {
                Some(d) => d,
                None => chars_of("unknown alert"),
            },
        }
    };
    let cut = take_chars(&full, 60);
    string_from_chars(&cut)
}

/// One panel row from an alert and its local start time.
pub fn alert_row(a: &RawAlert, start: Option<LocalStamp>) -> (r: Alert)
    ensures
        row_view(r) == (level_of(*a), time_of(start), message_of(*a)),
{
    proof {
        reveal_strlit("ERR");
        reveal_strlit("WRN");
        reveal_strlit("--:--");
    }
    let critical = opt_is(&a.severity, "critical");
    let error = opt_is(&a.severity, "error");
    proof {
        reveal_strlit("critical");
        reveal_strlit("error");
        reveal_strlit("info");
        assert("info"@.len() != "critical"@.len());
        assert("info"@.len() != "error"@.len());
    }
    let level = if critical || error { string_of("ERR") } else { string_of("WRN") };
    let time = match start {
        Some(l) => crate::clock::fmt_hhmm(l.hour, l.minute),
        None => string_of("--:--"),
    };
    Alert { level, time, message: message(a) }
}

/// The panel shows this alert.
pub fn is_shown(a: &RawAlert) -> (r: bool)
    ensures
        r == shown(*a),
{
    proof {
        reveal_strlit("info");
        reveal_strlit("critical");
        reveal_strlit("error");
        reveal_strlit("warning");
        assert("info"@.len() != "critical"@.len());
        assert("info"@.len() != "error"@.len());
        assert("info"@.len() != "warning"@.len());
    }
    !opt_is(&a.alertname, "Watchdog") && (opt_is(&a.severity, "critical") || opt_is(&a.severity, "error")
        || opt_is(&a.severity, "warning"))
}

/// OPS rows from raw alerts and their local start times (`times[i]` for
/// `raw[i]`).
pub fn alert_rows(raw: &Vec<RawAlert>, times: &Vec<Option<LocalStamp>>) -> (r: Vec<Alert>)
    requires
        times@.len() == raw@.len(),
    ensures
        r@.len() == spec_alert_rows(raw@, times@).len(),
        forall|i: int| 0 <= i < r@.len() ==> row_view(#[trigger] r@[i]) == spec_alert_rows(raw@, times@)[i],
{
    let mut rows: Vec<Alert> = Vec::new();
    let mut i: usize = 0;
    while i < raw.len() && rows.len() < 20
        invariant
            i <= raw@.len(),
            times@.len() == raw@.len(),
            rows@.len() <= 20,
            rows@.len() == take_rows(shown_rows(raw@.take(i as int), times@), 20).len(),
            rows@.len() < 20 ==> rows@.len() == shown_rows(raw@.take(i as int), times@).len(),
            forall|k: int| 0 <= k < rows@.len() ==> row_view(#[trigger] rows@[k]) == shown_rows(raw@.take(i as int), times@)[k],
        decreases raw.len() - i,
    {
        let a = &raw[i];
        let ghost pre = raw@.take(i as int);
        assert(raw@.take(i + 1).drop_last() == pre);
        assert(raw@.take(i + 1).last() == raw@[i as int]);
        if is_shown(a) {
            let row = alert_row(a, times[i]);
            rows.push(row);
        }
        i += 1;
    }
    proof {
        lemma_shown_rows_prefix(raw@, times@, i as int);
    }
    let ghost first = take_rows(shown_rows(raw@, times@), 20);
    assert(rows@.len() == first.len());
    assert forall|k: int| 0 <= k < rows@.len() implies row_view(#[trigger] rows@[k]) == first[k] by {}
    let mut out: Vec<Alert> = Vec::new();
    let mut rest: Vec<Alert> = Vec::new();
    let n = rows.len();
    let ghost orig = rows@;
    let mut src = rows;
    assert(orig.skip(0) == orig);
    while src.len() > 0
        invariant
            n == orig.len(),
            n == first.len(),
            src@.len() <= n,
            src@ == orig.skip(n - src@.len()),
            forall|k: int| 0 <= k < n ==> row_view(#[trigger] orig[k]) == first[k],
            out@.len() == rows_with_level(first.take(n - src@.len()), true).len(),
            rest@.len() == rows_with_level(first.take(n - src@.len()), false).len(),
            forall|k: int| 0 <= k < out@.len() ==> row_view(#[trigger] out@[k]) == rows_with_level(first.take(n - src@.len()), true)[k],
            forall|k: int| 0 <= k < rest@.len() ==> row_view(#[trigger] rest@[k]) == rows_with_level(first.take(n - src@.len()), false)[k],
        decreases src.len(),
    {
        let ghost t = n - src@.len();
        let row = src.remove(0);
        assert(row == orig[t]);
        assert(src@ == orig.skip(t + 1));
        assert(first.take(t + 1).drop_last() == first.take(t));
        assert(first.take(t + 1).last() == first[t]);
        proof {
            reveal_strlit("ERR");
        }
        let is_err = str_is(row.level.as_str(), "ERR");
        if is_err {
            out.push(row);
        } else {
            rest.push(row);
        }
    }
    assert(first.take(n as int) == first);
    let ghost e = rows_with_level(first, true);
    let ghost w = rows_with_level(first, false);
    let ghost mut k: int = 0;
    let base = out.len();
    while rest.len() > 0
        invariant
            out@.len() == base + k,
            0 <= k,
            base == e.len(),
            k + rest@.len() == w.len(),
            forall|q: int| 0 <= q < base ==> row_view(#[trigger] out@[q]) == e[q],
            forall|q: int| base <= q < out@.len() ==> row_view(#[trigger] out@[q]) == w[q - base],
            forall|q: int| 0 <= q < rest@.len() ==> row_view(#[trigger] rest@[q]) == w[k + q],
        decreases rest.len(),
    {
        let row = rest.remove(0);
        let ghost prev_out = out@;
        out.push(row);
        assert forall|q: int| 0 <= q < prev_out.len() implies out@[q] == prev_out[q] by {}
        proof {
            k = k + 1;
        }
    }
    out
}

proof fn lemma_shown_rows_prefix(raw: Seq<RawAlert>, times: Seq<Option<LocalStamp>>, i: int)
    requires
        0 <= i <= raw.len(),
        take_rows(shown_rows(raw.take(i), times), 20).len() == 20 || i == raw.len(),
    ensures
        take_rows(shown_rows(raw, times), 20) == take_rows(shown_rows(raw.take(i), times), 20),
    decreases raw.len() - i,
{
    if i < raw.len() {
        lemma_shown_rows_extend(raw, times, i, raw.len() as int);
        assert(raw.take(raw.len() as int) == raw);
        let a = shown_rows(raw, times);
        let b = shown_rows(raw.take(i), times);
        if a.len() == 20 {
            assert(a.take(20) =~= a);
        }
        if b.len() == 20 {
            assert(b.take(20) =~= b);
        }
    } else {
        assert(raw.take(i) == raw);
    }
}

proof fn lemma_shown_rows_extend(raw: Seq<RawAlert>, times: Seq<Option<LocalStamp>>, i: int, j: int)
    requires
        0 <= i <= j <= raw.len(),
        shown_rows(raw.take(i), times).len() >= 20,
    ensures
        shown_rows(raw.take(j), times).take(20) == shown_rows(raw.take(i), times).take(20),
        shown_rows(raw.take(j), times).len() >= 20,
    decreases j - i,
{
    if j > i {
        lemma_shown_rows_extend(raw, times, i, j - 1);
        assert(raw.take(j).drop_last() == raw.take(j - 1));
        let prev = shown_rows(raw.take(j - 1), times);
        let cur = shown_rows(raw.take(j), times);
        assert(cur == prev || cur == prev.push(cur.last()));
        assert(cur.take(20) == prev.take(20));
    }
}

proof fn lemma_rows_with_level(rows: Seq<RowView>, err: bool)
    ensures
        rows_with_level(rows, err).len() <= rows.len(),
        forall|i: int|
            0 <= i < rows_with_level(rows, err).len() ==> ((#[trigger] rows_with_level(rows, err)[i]).0 == "ERR"@)
                == err,
    decreases rows.len(),
{
    if rows.len() > 0 {
        lemma_rows_with_level(rows.drop_last(), err);
    }
}

/// `s` cut to its first 60 characters.
pub open spec fn first_60(s: Seq<char>) -> Seq<char> {
    if s.len() <= 60 { s } else { s.subrange(0, 60) }
}

/// An alert with a name is shown as `name · target`, cut to 60
/// characters, where the target is the `instance` label when it has one,
/// else its `pod` label, else its `namespace` label; with none of them
/// (or when the label chosen is empty, even an empty `instance`) the name
/// alone.
pub proof fn law_message_target(a: RawAlert)
    requires
        a.alertname is Some,
        a.alertname->0@.len() > 0,
    ensures
        a.instance is Some && a.instance->0@.len() > 0 ==> message_of(a) == first_60(a.alertname->0@ + " · "@ + a.instance->0@),
        a.instance is None && a.pod is Some && a.pod->0@.len() > 0 ==> message_of(a) == first_60(a.alertname->0@ + " · "@ + a.pod->0@),
        a.instance is None && a.pod is None && a.namespace is Some && a.namespace->0@.len() > 0
            ==> message_of(a) == first_60(a.alertname->0@ + " · "@ + a.namespace->0@),
        a.instance is None && a.pod is None && a.namespace is None ==> message_of(a) == first_60(a.alertname->0@),
        a.instance is Some && a.instance->0@.len() == 0 ==> message_of(a) == first_60(a.alertname->0@),
        message_of(a).len() <= 60,
{
}

/// An alert without a name is shown by its summary, else its
/// description, else `unknown alert`, cut to 60 characters.
pub proof fn law_message_without_name(a: RawAlert)
    requires
        a.alertname is None || a.alertname->0@.len() == 0,
    ensures
        a.summary is Some ==> message_of(a) == first_60(a.summary->0@),
        a.summary is None && a.description is Some ==> message_of(a) == first_60(a.description->0@),
        a.summary is None && a.description is None ==> message_of(a) == "unknown alert"@,
{
    reveal_strlit("unknown alert");
}

/// The OPS panel lists at most twenty alerts, and no warning is listed
/// above an error.
pub proof fn law_alert_rows_errors_first(raw: Seq<RawAlert>, times: Seq<Option<LocalStamp>>)
    ensures
        spec_alert_rows(raw, times).len() <= 20,
        forall|i: int, j: int|
            #![trigger spec_alert_rows(raw, times)[i], spec_alert_rows(raw, times)[j]]
            0 <= i < j < spec_alert_rows(raw, times).len() && spec_alert_rows(raw, times)[j].0 == "ERR"@
                ==> spec_alert_rows(raw, times)[i].0 == "ERR"@,
{
    let first = take_rows(shown_rows(raw, times), 20);
    let e = rows_with_level(first, true);
    let w = rows_with_level(first, false);
    lemma_rows_with_level(first, true);
    lemma_rows_with_level(first, false);
    let rows = spec_alert_rows(raw, times);
    assert(rows == e + w);
    assert forall|i: int, j: int|
        #![trigger rows[i], rows[j]]
        0 <= i < j < rows.len() && rows[j].0 == "ERR"@ implies rows[i].0 == "ERR"@ by {
        if j >= e.len() {
            assert(rows[j] == w[j - e.len()]);
        }
        assert(rows[i] == e[i]);
    }
    assert(e.len() + w.len() <= 20) by {
        lemma_err_split_len(first);
    }
}

proof fn lemma_err_split_len(rows: Seq<RowView>)
    ensures
        rows_with_level(rows, true).len() + rows_with_level(rows, false).len() == rows.len(),
    decreases rows.len(),
{
    if rows.len() > 0 {
        lemma_err_split_len(rows.drop_last());
    }
}

/// `chrono::DateTime::parse_from_rfc3339(s)` as a Unix timestamp; `None`
/// when the text is not RFC 3339. Deterministic in `s`.
pub uninterp spec fn spec_rfc3339_instant(s: Seq<char>) -> Option<i64>;

/// Parses an RFC 3339 timestamp with chrono.
#[verifier::external_body]
fn parse_rfc3339(s: &str) -> (r: Option<i64>)
    ensures
        r == spec_rfc3339_instant(s@),
{
    chrono::DateTime::parse_from_rfc3339(s).ok().map(|t| t.timestamp())
}

/// `t` is the local reading of the alert's start in the machine's zone:
/// absent when the start is missing or is no RFC 3339 instant, at that
/// instant when present, and present whenever the instant lies within
/// `local_range`.
pub open spec fn start_reading(a: RawAlert, t: Option<LocalStamp>) -> bool {
    match opt_view(a.starts_at) {
        None => t is None,
        Some(s) => match spec_rfc3339_instant(s) {
            None => t is None,
            Some(ts) => (t matches Some(l) ==> l.ts == ts && l.wf()) && (local_range(ts as int) ==> t is Some),
        },
    }
}

/// OPS rows from raw alerts: start times are shown in the machine's local
/// time zone (`--:--` when missing or unparseable).
pub fn build_alerts(raw: &Vec<RawAlert>) -> (r: Vec<Alert>)
    ensures
        exists|times: Seq<Option<LocalStamp>>|
            #![trigger spec_alert_rows(raw@, times)]
            times.len() == raw@.len() && (forall|i: int| 0 <= i < times.len() ==> #[trigger] start_reading(raw@[i], times[i]))
                && r@.len() == spec_alert_rows(raw@, times).len() && forall|i: int|
                0 <= i < r@.len() ==> row_view(#[trigger] r@[i]) == spec_alert_rows(raw@, times)[i],
{
    let mut times: Vec<Option<LocalStamp>> = Vec::new();
    let mut i: usize = 0;
    while i < raw.len()
        invariant
            i <= raw@.len(),
            times@.len() == i,
            forall|k: int| 0 <= k < i ==> #[trigger] start_reading(raw@[k], times@[k]),
        decreases raw.len() - i,
    {
        let t = match &raw[i].starts_at {
            Some(s) => match parse_rfc3339(s.as_str()) {
                Some(ts) => local_at(ts),
                None => None,
            },
            None => None,
        };
        times.push(t);
        i += 1;
    }
    let r = alert_rows(raw, &times);
    assert(spec_alert_rows(raw@, times@) == spec_alert_rows(raw@, times@));
    r
}

} // verus!
