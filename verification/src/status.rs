//! Per-source freshness: when each upstream last delivered, how the panels
//! roll sources up, and the stale markers the renderer stamps on panels.
//!
//! Instants are Unix timestamps in whole seconds (UTC).

use vstd::prelude::*;
use crate::text::{chars_of, dec, push_all, push_dec, push_str, string_from_chars, string_of};

verus! {

/// Outcome of the most recent upstream pull for one data source.
#[derive(Copy, Clone, Debug, PartialEq, Eq, Structural)]
pub struct SectionStatus {
    /// False when the integration is not configured (or before the first
    /// fetch); such a source is never marked stale.
    pub configured: bool,
    /// Whether the most recent pull attempt succeeded.
    pub ok: bool,
    /// When the section last returned data (`None`: never since boot).
    pub last_ok: Option<i64>,
}

/// The section is showing values that are not current: it is configured
/// and its last pull failed.
pub open spec fn is_degraded(s: SectionStatus) -> bool {
    s.configured && !s.ok
}

/// Roll-up of two sources feeding one panel.
pub open spec fn spec_worse_of(a: SectionStatus, b: SectionStatus) -> SectionStatus {
    if !a.configured {
        b
    } else if !b.configured {
        a
    } else if a.ok && b.ok {
        a
    } else if a.ok {
        b
    } else if b.ok {
        a
    } else {
        match (a.last_ok, b.last_ok) {
            (Some(x), Some(y)) => if y < x { b } else { a },
            (Some(_), None) => b,
            _ => a,
        }
    }
}

/// The older of two "last success" instants; `None` (never) is oldest.
pub open spec fn older(a: Option<i64>, b: Option<i64>) -> Option<i64> {
    match (a, b) {
        (Some(x), Some(y)) => Some(if x <= y { x } else { y }),
        _ => None,
    }
}

/// Compact age for the panel markers: `<1m`, `12m`, `3h`, `4d`.
pub open spec fn spec_age_label(secs: int) -> Seq<char> {
    if secs < 60 {
        "<1m"@
    } else if secs < 3600 {
        dec((secs / 60) as nat) + "m"@
    } else if secs < 86400 {
        dec((secs / 3600) as nat) + "h"@
    } else {
        dec((secs / 86400) as nat) + "d"@
    }
}

/// `x` held to the range of `i64`: an age beyond it reads as the extreme.
pub open spec fn clamp_i64(x: int) -> int {
    if x > i64::MAX {
        i64::MAX as int
    } else if x < i64::MIN {
        i64::MIN as int
    } else {
        x
    }
}

/// Panel-header marker: `None` for a healthy or opted-out section,
/// `STALE <age>` when the last success is known, `NO DATA` otherwise.
pub open spec fn spec_marker(s: SectionStatus, now: int) -> Option<Seq<char>> {
    if !is_degraded(s) {
        None
    } else {
        match s.last_ok {
            Some(t) => Some("STALE "@ + spec_age_label(clamp_i64(now - t))),
            None => Some("NO DATA"@),
        }
    }
}

/// Compact age label for a number of seconds.
pub fn age_label(secs: i64) -> (r: String)
    ensures
        r@ == spec_age_label(secs as int),
{
    let mut v: Vec<char> = Vec::new();
    if secs < 60 {
        proof {
            reveal_strlit("<1m");
        }
        return string_of("<1m");
    } else if secs < 3600 {
        push_dec(&mut v, (secs / 60) as u64);
        push_str(&mut v, "m");
    } else if secs < 86_400 {
        push_dec(&mut v, (secs / 3600) as u64);
        push_str(&mut v, "h");
    } else {
        push_dec(&mut v, (secs / 86_400) as u64);
        push_str(&mut v, "d");
    }
    string_from_chars(&v)
}

impl SectionStatus {
    /// An opted-out source.
    pub fn unconfigured() -> (r: Self)
        ensures
            r == (SectionStatus { configured: false, ok: false, last_ok: None }),
    {
        SectionStatus { configured: false, ok: false, last_ok: None }
    }

    /// A successful pull at `now`.
    pub fn fresh(now: i64) -> (r: Self)
        ensures
            r == (SectionStatus { configured: true, ok: true, last_ok: Some(now) }),
    {
        SectionStatus { configured: true, ok: true, last_ok: Some(now) }
    }

    /// A failed pull: keeps the previous success instant.
    pub fn failed(prev: Self) -> (r: Self)
        ensures
            r == (SectionStatus { configured: true, ok: false, last_ok: prev.last_ok }),
    {
        SectionStatus { configured: true, ok: false, last_ok: prev.last_ok }
    }

    /// Combines two sources feeding the same panel: the panel is as
    /// trustworthy as its worst-off configured source.
    pub fn worse_of(a: Self, b: Self) -> (r: Self)
        ensures
            r == spec_worse_of(a, b),
    {
        if !a.configured {
            b
        } else if !b.configured {
            a
        } else if a.ok && b.ok {
            a
        } else if a.ok {
            b
        } else if b.ok {
            a
        } else {
            match (a.last_ok, b.last_ok) {
                (Some(x), Some(y)) => if y < x { b } else { a },
                (Some(_), None) => b,
                _ => a,
            }
        }
    }

    /// Short marker for the panel header, e.g. `STALE 12m`.
    pub fn marker(&self, now: i64) -> (r: Option<String>)
        ensures
            match r {
                Some(s) => spec_marker(*self, now as int) == Some(s@),
                None => spec_marker(*self, now as int) is None,
            },
    {
        if !self.configured || self.ok {
            return None;
        }
        match self.last_ok {
            Some(t) => {
                let mut v: Vec<char> = Vec::new();
                push_str(&mut v, "STALE ");
                let secs: i64 = match now.checked_sub(t) {
                    Some(a) => a,
                    None => if now > t { i64::MAX } else { i64::MIN },
                };
                let age = age_label(secs);
                let a = chars_of(age.as_str());
                push_all(&mut v, &a);
                Some(string_from_chars(&v))
            },
            None => {
                proof {
                    reveal_strlit("NO DATA");
                }
                Some(string_of("NO DATA"))
            },
        }
    }
}

impl Default for SectionStatus {
    fn default() -> (r: Self)
        ensures
            r == (SectionStatus { configured: false, ok: false, last_ok: None }),
    {
        SectionStatus::unconfigured()
    }
}

/// An opted-out source never changes the panel it shares.
pub proof fn law_worse_of_ignores_unconfigured(a: SectionStatus, b: SectionStatus)
    ensures
        !a.configured ==> spec_worse_of(a, b) == b,
        !b.configured && a.configured ==> spec_worse_of(a, b) == a,
{
}

/// The roll-up is always one of the two statuses, it is configured when
/// either source is, and a panel is degraded exactly when one of its
/// sources is.
pub proof fn law_worse_of_degraded(a: SectionStatus, b: SectionStatus)
    ensures
        spec_worse_of(a, b) == a || spec_worse_of(a, b) == b,
        spec_worse_of(a, b).configured == (a.configured || b.configured),
        is_degraded(spec_worse_of(a, b)) == (is_degraded(a) || is_degraded(b)),
{
}

/// When both sources are failing, the roll-up reports the one that has
/// been dark the longest (never having succeeded counts as longest).
pub proof fn law_worse_of_oldest(a: SectionStatus, b: SectionStatus)
    requires
        is_degraded(a),
        is_degraded(b),
    ensures
        spec_worse_of(a, b).last_ok == older(a.last_ok, b.last_ok),
{
}

/// A marker is shown exactly for degraded sections; it reads `NO DATA`
/// when the source never succeeded and `STALE ...` otherwise.
pub proof fn law_marker_iff_degraded(s: SectionStatus, now: int)
    ensures
        spec_marker(s, now) is Some <==> is_degraded(s),
        is_degraded(s) && s.last_ok is None ==> spec_marker(s, now) == Some("NO DATA"@),
        is_degraded(s) && s.last_ok is Some ==> spec_marker(s, now)->0.take(6) == "STALE "@,
{
    if is_degraded(s) && s.last_ok is Some {
        let t = s.last_ok->0;
        reveal_strlit("STALE ");
        assert(("STALE "@ + spec_age_label(clamp_i64(now - t))).take(6) =~= "STALE "@);
    }
}

/// Per-source freshness, rolled up per panel.
#[derive(Copy, Clone, Debug, PartialEq, Eq, Structural)]
pub struct Status {
    pub hosts: SectionStatus,
    pub cluster: SectionStatus,
    pub weather: SectionStatus,
    pub alerts: SectionStatus,
    pub budget: SectionStatus,
    pub agenda: SectionStatus,
    pub shipments: SectionStatus,
}

/// The seven per-source statuses, in declaration order.
pub open spec fn sources_of(s: Status) -> Seq<SectionStatus> {
    seq![s.hosts, s.cluster, s.weather, s.alerts, s.budget, s.agenda, s.shipments]
}

/// Latest success instant among `xs`; `None` when none succeeded.
pub open spec fn newest_of(xs: Seq<SectionStatus>) -> Option<i64>
    decreases xs.len(),
{
    if xs.len() == 0 {
        None
    } else {
        let rest = newest_of(xs.drop_last());
        match (rest, xs.last().last_ok) {
            (Some(a), Some(b)) => Some(if b > a { b } else { a }),
            (Some(a), None) => Some(a),
            (None, x) => x,
        }
    }
}

/// The five panels with their tags, in footer order.
pub open spec fn panels_of(s: Status) -> Seq<(Seq<char>, SectionStatus)> {
    seq![
        ("WX"@, s.weather),
        ("AGENDA"@, spec_worse_of(s.agenda, s.shipments)),
        ("SYS"@, spec_worse_of(s.hosts, s.cluster)),
        ("€"@, s.budget),
        ("OPS"@, s.alerts),
    ]
}

/// `(tag, marker)` for every degraded panel of `ps`, in order.
pub open spec fn collect_markers(ps: Seq<(Seq<char>, SectionStatus)>, now: int) -> Seq<(Seq<char>, Seq<char>)>
    decreases ps.len(),
{
    if ps.len() == 0 {
        seq![]
    } else {
        let rest = collect_markers(ps.drop_last(), now);
        match spec_marker(ps.last().1, now) {
            Some(m) => rest.push((ps.last().0, m)),
            None => rest,
        }
    }
}

impl Status {
    /// Every source healthy as of `now`.
    pub fn all_fresh(now: i64) -> (r: Self)
        ensures
            forall|i: int|
                0 <= i < 7 ==> #[trigger] sources_of(r)[i] == SectionStatus::fresh_spec(now),
    {
        let f = SectionStatus::fresh(now);
        Status { hosts: f, cluster: f, weather: f, alerts: f, budget: f, agenda: f, shipments: f }
    }

    pub fn wx(&self) -> (r: SectionStatus)
        ensures
            r == self.weather,
    {
        self.weather
    }

    pub fn agenda_panel(&self) -> (r: SectionStatus)
        ensures
            r == spec_worse_of(self.agenda, self.shipments),
    {
        SectionStatus::worse_of(self.agenda, self.shipments)
    }

    pub fn sys(&self) -> (r: SectionStatus)
        ensures
            r == spec_worse_of(self.hosts, self.cluster),
    {
        SectionStatus::worse_of(self.hosts, self.cluster)
    }

    pub fn budget_panel(&self) -> (r: SectionStatus)
        ensures
            r == self.budget,
    {
        self.budget
    }

    pub fn ops(&self) -> (r: SectionStatus)
        ensures
            r == self.alerts,
    {
        self.alerts
    }

    /// Most recent successful pull across all sources.
    pub fn newest_ok(&self) -> (r: Option<i64>)
        ensures
            r == newest_of(sources_of(*self)),
    {
        let xs = [
            self.hosts,
            self.cluster,
            self.weather,
            self.alerts,
            self.budget,
            self.agenda,
            self.shipments,
        ];
        let ghost srcs = sources_of(*self);
        assert(xs@ == srcs);
        let mut best: Option<i64> = None;
        let mut i: usize = 0;
        while i < 7
            invariant
                i <= 7,
                xs@ == srcs,
                srcs.len() == 7,
                best == newest_of(srcs.take(i as int)),
            decreases 7 - i,
        {
            assert(srcs.take(i as int + 1).drop_last() == srcs.take(i as int));
            let cur = xs[i].last_ok;
            best = match (best, cur) {
                (Some(a), Some(b)) => Some(if b > a { b } else { a }),
                (Some(a), None) => Some(a),
                (None, x) => x,
            };
            i += 1;
        }
        assert(srcs.take(7) == srcs);
        best
    }

    /// `(panel tag, marker)` for every panel currently degraded.
    pub fn degraded(&self, now: i64) -> (r: Vec<(&'static str, String)>)
        ensures
            r@.len() == collect_markers(panels_of(*self), now as int).len(),
            forall|i: int|
                0 <= i < r@.len() ==> (#[trigger] r@[i]).0@ == collect_markers(
                    panels_of(*self),
                    now as int,
                )[i].0 && r@[i].1@ == collect_markers(panels_of(*self), now as int)[i].1,
    {
        let ghost ps = panels_of(*self);
        let mut out: Vec<(&'static str, String)> = Vec::new();
        proof {
            reveal_strlit("WX");
            reveal_strlit("AGENDA");
            reveal_strlit("SYS");
            reveal_strlit("€");
            reveal_strlit("OPS");
        }
        let panels = [
            ("WX", self.wx()),
            ("AGENDA", self.agenda_panel()),
            ("SYS", self.sys()),
            ("€", self.budget_panel()),
            ("OPS", self.ops()),
        ];
        let mut i: usize = 0;
        while i < 5
            invariant
                i <= 5,
                ps == panels_of(*self),
                forall|k: int| 0 <= k < 5 ==> (#[trigger] panels@[k]).0@ == ps[k].0 && panels@[k].1 == ps[k].1,
                out@.len() == collect_markers(ps.take(i as int), now as int).len(),
                forall|k: int|
                    0 <= k < out@.len() ==> (#[trigger] out@[k]).0@ == collect_markers(
                        ps.take(i as int),
                        now as int,
                    )[k].0 && out@[k].1@ == collect_markers(ps.take(i as int), now as int)[k].1,
            decreases 5 - i,
        {
            assert(ps.take(i as int + 1).drop_last() == ps.take(i as int));
            let (tag, st) = panels[i];
            match st.marker(now) {
                Some(m) => {
                    out.push((tag, m));
                },
                None => {},
            }
            i += 1;
        }
        assert(ps.take(5) == ps);
        out
    }
}

impl SectionStatus {
    pub open spec fn fresh_spec(now: i64) -> SectionStatus {
        SectionStatus { configured: true, ok: true, last_ok: Some(now) }
    }
}

impl Default for Status {
    fn default() -> (r: Self)
        ensures
            forall|i: int|
                0 <= i < 7 ==> #[trigger] sources_of(r)[i] == (SectionStatus {
                    configured: false,
                    ok: false,
                    last_ok: None,
                }),
    {
        let u = SectionStatus::unconfigured();
        Status { hosts: u, cluster: u, weather: u, alerts: u, budget: u, agenda: u, shipments: u }
    }
}

/// The newest success is one of the sources' success instants and no
/// source succeeded later; it is `None` only when no source ever succeeded.
pub proof fn law_newest_ok_is_max(xs: Seq<SectionStatus>)
    ensures
        newest_of(xs) is None <==> forall|i: int| 0 <= i < xs.len() ==> (#[trigger] xs[i]).last_ok is None,
        (newest_of(xs) matches Some(m) ==> exists|i: int| 0 <= i < xs.len() && (#[trigger] xs[i]).last_ok == Some(m)),
        (newest_of(xs) matches Some(m) ==> forall|i: int|
            0 <= i < xs.len() ==> ((#[trigger] xs[i]).last_ok matches Some(t) ==> t <= m)),
    decreases xs.len(),
{
    if xs.len() > 0 {
        let init = xs.drop_last();
        law_newest_ok_is_max(init);
        assert forall|i: int| 0 <= i < init.len() implies init[i] == xs[i] by {}
        if let Some(m) = newest_of(xs) {
            if newest_of(init) is Some && xs.last().last_ok is Some && newest_of(init) != Some(m) {
                assert(xs[xs.len() - 1].last_ok == Some(m));
            } else if newest_of(init) is Some {
                let j = choose|j: int| 0 <= j < init.len() && (#[trigger] init[j]).last_ok == newest_of(init);
                assert(xs[j].last_ok == Some(m));
            } else {
                assert(xs[xs.len() - 1].last_ok == Some(m));
            }
        }
    }
}

/// The footer lists a panel exactly when that panel is degraded: with
/// every source healthy or opted out, nothing is listed.
pub proof fn law_degraded_empty_iff_healthy(ps: Seq<(Seq<char>, SectionStatus)>, now: int)
    ensures
        collect_markers(ps, now).len() == 0 <==> forall|i: int|
            0 <= i < ps.len() ==> !is_degraded((#[trigger] ps[i]).1),
    decreases ps.len(),
{
    if ps.len() > 0 {
        let init = ps.drop_last();
        law_degraded_empty_iff_healthy(init, now);
        law_marker_iff_degraded(ps.last().1, now);
        assert forall|i: int| 0 <= i < init.len() implies init[i] == ps[i] by {}
        if collect_markers(ps, now).len() == 0 {
            assert forall|i: int| 0 <= i < ps.len() implies !is_degraded((#[trigger] ps[i]).1) by {
                if i < init.len() {
                    assert(init[i] == ps[i]);
                }
            }
        } else if forall|i: int| 0 <= i < ps.len() ==> !is_degraded((#[trigger] ps[i]).1) {
            assert(!is_degraded(ps[ps.len() - 1].1));
            assert forall|i: int| 0 <= i < init.len() implies !is_degraded((#[trigger] init[i]).1) by {
                assert(init[i] == ps[i]);
            }
        }
    }
}

} // verus!
