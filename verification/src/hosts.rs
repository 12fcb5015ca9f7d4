//! The SYS panel's host table and cluster rollup, assembled from the
//! per-query sample lists of a Prometheus scrape.

use vstd::prelude::*;
use crate::data::{ClusterMetrics, HostData};
use crate::ical::{find_char, find_char_from, lemma_find_char};
use crate::text::{chars_eq, chars_lt, chars_of, lemma_lex_trans, lemma_lex_trichotomy, lex_lt, string_from_chars, string_of, str_is};

verus! {

// ── Sample keys ────────────────────────────────────────────────────────────

/// The part of an `instance` label before its `:port` suffix.
pub open spec fn before_colon(s: Seq<char>) -> Seq<char> {
    match find_char(s, ':') {
        Some(i) => s.take(i),
        None => s,
    }
}

/// Host key of a sample: its `instance` label, else its `node` label, else
/// `unknown`, with any `:port` suffix dropped.
pub open spec fn spec_host_key(instance: Option<Seq<char>>, node: Option<Seq<char>>) -> Seq<char> {
    match instance {
        Some(i) => before_colon(i),
        None => match node {
            Some(n) => before_colon(n),
            None => before_colon("unknown"@),
        },
    }
}

fn prefix_before_colon(s: &str) -> (r: String)
    ensures
        r@ == before_colon(s@),
{
    let cs = chars_of(s);
    proof {
        assert(cs@.skip(0) == cs@);
        lemma_find_char(cs@, ':');
    }
    match find_char_from(&cs, 0, ':') {
        Some(i) => {
            let mut out: Vec<char> = Vec::new();
            let mut j: usize = 0;
            while j < i
                invariant
                    i < cs@.len(),
                    j <= i,
                    out@ == cs@.take(j as int),
                decreases i - j,
            {
                out.push(cs[j]);
                assert(cs@.take(j + 1) == cs@.take(j as int).push(cs@[j as int]));
                j += 1;
            }
            string_from_chars(&out)
        },
        None => string_from_chars(&cs),
    }
}

/// The host key of one Prometheus sample, from its `instance` and `node`
/// labels.
pub fn host_key(instance: Option<&str>, node: Option<&str>) -> (r: String)
    ensures
        r@ == spec_host_key(
            match instance { Some(s) => Some(s@), None => None },
            match node { Some(s) => Some(s@), None => None },
        ),
{
    match instance {
        Some(s) => prefix_before_colon(s),
        None => match node {
            Some(n) => prefix_before_colon(n),
            None => prefix_before_colon("unknown"),
        },
    }
}

/// The `(host key, label value)` pair of one `node_uname_info` sample: both
/// must be non-empty, a missing label counting as empty.
pub open spec fn spec_label_pair(instance: Option<Seq<char>>, value: Option<Seq<char>>) -> Option<(Seq<char>, Seq<char>)> {
    let key = before_colon(match instance { Some(i) => i, None => Seq::empty() });
    let val = match value { Some(v) => v, None => Seq::empty() };
    if key.len() > 0 && val.len() > 0 {
        Some((key, val))
    } else {
        None
    }
}

pub fn label_pair(instance: Option<&str>, value: Option<&str>) -> (r: Option<(String, String)>)
    ensures
        match r {
            Some(p) => spec_label_pair(
                match instance { Some(s) => Some(s@), None => None },
                match value { Some(s) => Some(s@), None => None },
            ) == Some((p.0@, p.1@)),
            None => spec_label_pair(
                match instance { Some(s) => Some(s@), None => None },
                match value { Some(s) => Some(s@), None => None },
            ) is None,
        },
{
    let key = match instance {
        Some(s) => prefix_before_colon(s),
        None => prefix_before_colon(""),
    };
    let val = match value {
        Some(v) => chars_of(v),
        None => chars_of(""),
    };
    let kc = chars_of(key.as_str());
    proof {
        reveal_strlit("");
    }
    if kc.len() > 0 && val.len() > 0 {
        Some((key, string_from_chars(&val)))
    } else {
        None
    }
}

// ── Keyed lookups (a later sample for the same key wins) ───────────────────

/// Index of the last pair keyed `k`.
pub open spec fn last_index_of<V>(pairs: Seq<(String, V)>, k: Seq<char>) -> Option<int>
    decreases pairs.len(),
{
    if pairs.len() == 0 {
        None
    } else if pairs.last().0@ == k {
        Some(pairs.len() - 1)
    } else {
        last_index_of(pairs.drop_last(), k)
    }
}

/// The value of the last pair keyed `k`, else `d`.
pub open spec fn lookup_or<V>(pairs: Seq<(String, V)>, k: Seq<char>, d: V) -> V {
    match last_index_of(pairs, k) {
        Some(i) => pairs[i].1,
        None => d,
    }
}

pub proof fn lemma_last_index_of<V>(pairs: Seq<(String, V)>, k: Seq<char>)
    ensures
        match last_index_of(pairs, k) {
            Some(i) => 0 <= i < pairs.len() && pairs[i].0@ == k
                && forall|j: int| i < j < pairs.len() ==> pairs[j].0@ != k,
            None => forall|j: int| 0 <= j < pairs.len() ==> pairs[j].0@ != k,
        },
    decreases pairs.len(),
{
    if pairs.len() > 0 {
        let d = pairs.drop_last();
        lemma_last_index_of(d, k);
        assert forall|j: int| 0 <= j < d.len() implies #[trigger] pairs[j] == d[j] by {}
    }
}

fn find_last<V>(pairs: &Vec<(String, V)>, k: &Vec<char>) -> (r: Option<usize>)
    ensures
        match r {
            Some(i) => last_index_of(pairs@, k@) == Some(i as int) && i < pairs@.len(),
            None => last_index_of(pairs@, k@) is None,
        },
{
    let mut r: Option<usize> = None;
    let mut i: usize = 0;
    while i < pairs.len()
        invariant
            i <= pairs@.len(),
            match r {
                Some(j) => last_index_of(pairs@.take(i as int), k@) == Some(j as int) && j < i,
                None => last_index_of(pairs@.take(i as int), k@) is None,
            },
        decreases pairs.len() - i,
    {
        let ck = chars_of(pairs[i].0.as_str());
        assert(pairs@.take(i + 1).drop_last() == pairs@.take(i as int));
        if chars_eq(&ck, k) {
            r = Some(i);
        }
        i += 1;
    }
    assert(pairs@.take(pairs@.len() as int) == pairs@);
    r
}

fn lookup_u8(pairs: &Vec<(String, u8)>, k: &Vec<char>) -> (r: u8)
    ensures
        r == lookup_or(pairs@, k@, 0u8),
{
    match find_last(pairs, k) {
        Some(i) => pairs[i].1,
        None => 0,
    }
}

fn lookup_u32(pairs: &Vec<(String, u32)>, k: &Vec<char>) -> (r: u32)
    ensures
        r == lookup_or(pairs@, k@, 0u32),
{
    match find_last(pairs, k) {
        Some(i) => pairs[i].1,
        None => 0,
    }
}

// ── The sorted key set ─────────────────────────────────────────────────────

/// Strictly increasing in string order (so free of repeats).
pub open spec fn strictly_sorted(ks: Seq<Seq<char>>) -> bool {
    forall|i: int, j: int| 0 <= i < j < ks.len() ==> lex_lt(#[trigger] ks[i], #[trigger] ks[j])
}

/// The keys of a sample list.
pub open spec fn keys_of<V>(pairs: Seq<(String, V)>) -> Set<Seq<char>> {
    Set::new(|k: Seq<char>| exists|i: int| 0 <= i < pairs.len() && #[trigger] pairs[i].0@ == k)
}

pub open spec fn views(v: Seq<Vec<char>>) -> Seq<Seq<char>> {
    v.map_values(|x: Vec<char>| x@)
}

pub open spec fn holds(ks: Seq<Seq<char>>, k: Seq<char>) -> bool {
    exists|i: int| 0 <= i < ks.len() && #[trigger] ks[i] == k
}

fn insert_key(out: &mut Vec<Vec<char>>, key: Vec<char>)
    requires
        strictly_sorted(views(old(out)@)),
    ensures
        strictly_sorted(views(final(out)@)),
        forall|k: Seq<char>| holds(views(final(out)@), k) <==> (holds(views(old(out)@), k) || k == key@),
{
    let ghost old_v = views(out@);
    let mut j: usize = 0;
    while j < out.len() && chars_lt(&out[j], &key)
        invariant
            j <= out@.len(),
            views(out@) == old_v,
            strictly_sorted(old_v),
            forall|m: int| 0 <= m < j ==> lex_lt(#[trigger] old_v[m], key@),
        decreases out.len() - j,
    {
        j += 1;
    }
    if j < out.len() && chars_eq(&out[j], &key) {
        assert(old_v[j as int] == key@);
        return;
    }
    proof {
        if j < old_v.len() {
            lemma_lex_trichotomy(old_v[j as int], key@);
            assert(lex_lt(key@, old_v[j as int]));
            assert forall|m: int| j <= m < old_v.len() implies lex_lt(key@, #[trigger] old_v[m]) by {
                if m > j {
                    lemma_lex_trans(key@, old_v[j as int], old_v[m]);
                }
            }
        }
    }
    let ghost kv = key@;
    out.insert(j, key);
    proof {
        let nv = views(out@);
        assert(nv =~= old_v.insert(j as int, kv));
        assert forall|a: int, b: int| 0 <= a < b < nv.len() implies lex_lt(#[trigger] nv[a], #[trigger] nv[b]) by {
            if b < j {
            } else if b == j {
            } else if a < j {
                assert(nv[b] == old_v[b - 1]);
                lemma_lex_trans(old_v[a], kv, old_v[b - 1]);
            } else if a == j {
                assert(nv[b] == old_v[b - 1]);
            } else {
                assert(nv[a] == old_v[a - 1]);
                assert(nv[b] == old_v[b - 1]);
            }
        }
        assert forall|k: Seq<char>| holds(nv, k) <==> (holds(old_v, k) || k == kv) by {
            if holds(nv, k) {
                let i = choose|i: int| 0 <= i < nv.len() && #[trigger] nv[i] == k;
                if i < j {
                    assert(old_v[i] == k);
                } else if i > j {
                    assert(old_v[i - 1] == k);
                }
            }
            if holds(old_v, k) {
                let i = choose|i: int| 0 <= i < old_v.len() && #[trigger] old_v[i] == k;
                if i < j {
                    assert(nv[i] == k);
                } else {
                    assert(nv[i + 1] == k);
                }
            }
            if k == kv {
                assert(nv[j as int] == k);
            }
        }
    }
}

/// Some pair among the first `n` is keyed `k`.
pub open spec fn seen<V>(pairs: Seq<(String, V)>, n: int, k: Seq<char>) -> bool {
    exists|m: int| 0 <= m < n && #[trigger] pairs[m].0@ == k
}

fn insert_keys<V>(out: &mut Vec<Vec<char>>, pairs: &Vec<(String, V)>)
    requires
        strictly_sorted(views(old(out)@)),
    ensures
        strictly_sorted(views(final(out)@)),
        forall|k: Seq<char>| holds(views(final(out)@), k) <==> (holds(views(old(out)@), k) || keys_of(pairs@).contains(k)),
{
    let ghost start = views(out@);
    let mut i: usize = 0;
    while i < pairs.len()
        invariant
            i <= pairs@.len(),
            strictly_sorted(views(out@)),
            forall|k: Seq<char>| #![trigger holds(views(out@), k)] #![trigger seen(pairs@, i as int, k)]
                holds(views(out@), k) <==> (holds(start, k) || seen(pairs@, i as int, k)),
        decreases pairs.len() - i,
    {
        let key = chars_of(pairs[i].0.as_str());
        let ghost before = views(out@);
        let ghost kv = key@;
        insert_key(out, key);
        proof {
            assert forall|k: Seq<char>| holds(views(out@), k) <==> (holds(start, k) || seen(pairs@, i + 1, k)) by {
                assert(holds(views(out@), k) <==> (holds(before, k) || k == kv));
                assert(holds(before, k) <==> (holds(start, k) || seen(pairs@, i as int, k)));
                if k == kv {
                    assert(pairs@[i as int].0@ == k);
                }
                if seen(pairs@, i + 1, k) {
                    let m = choose|m: int| 0 <= m < i + 1 && #[trigger] pairs@[m].0@ == k;
                    if m < i {
                        assert(seen(pairs@, i as int, k));
                    }
                }
                if seen(pairs@, i as int, k) {
                    let m = choose|m: int| 0 <= m < i && #[trigger] pairs@[m].0@ == k;
                    assert(seen(pairs@, i + 1, k));
                }
            }
        }
        i += 1;
    }
    proof {
        assert forall|k: Seq<char>| seen(pairs@, i as int, k) <==> keys_of(pairs@).contains(k) by {
            if keys_of(pairs@).contains(k) {
                let m = choose|m: int| 0 <= m < pairs@.len() && #[trigger] pairs@[m].0@ == k;
                assert(seen(pairs@, i as int, k));
            }
            if seen(pairs@, i as int, k) {
                let m = choose|m: int| 0 <= m < i && #[trigger] pairs@[m].0@ == k;
                assert(keys_of(pairs@).contains(k));
            }
        }
    }
}

// ── Host table ─────────────────────────────────────────────────────────────

/// The per-host samples of one scrape, each list keyed by host key and
/// already in the units the panel shows: whole percent (CPU, RAM, disk),
/// whole degrees, whole days of uptime, hundredths of load, tenths of a GiB
/// used and whole GiB total. `names` maps host keys to readable node names.
pub struct HostSamples {
    pub cpu: Vec<(String, u8)>,
    pub temp: Vec<(String, u8)>,
    pub ram: Vec<(String, u8)>,
    pub disk: Vec<(String, u8)>,
    pub uptime: Vec<(String, u32)>,
    pub load1: Vec<(String, u32)>,
    pub load5: Vec<(String, u32)>,
    pub load15: Vec<(String, u32)>,
    pub ram_used: Vec<(String, u32)>,
    pub ram_total: Vec<(String, u32)>,
    pub names: Vec<(String, String)>,
}

/// The hosts of a scrape: every key seen by the uptime, CPU, RAM or disk
/// query.
pub open spec fn host_keys(s: HostSamples) -> Set<Seq<char>> {
    keys_of(s.uptime@).union(keys_of(s.cpu@)).union(keys_of(s.ram@)).union(keys_of(s.disk@))
}

/// The shown name of host `k`: its node name when one was scraped, else the
/// key itself.
pub open spec fn display_name(s: HostSamples, k: Seq<char>) -> Seq<char> {
    match last_index_of(s.names@, k) {
        Some(i) => s.names@[i].1@,
        None => k,
    }
}

/// `h` is the row of host `k`: each figure is the host's sample, 0 when the
/// query has none for it.
pub open spec fn host_row(h: HostData, s: HostSamples, k: Seq<char>) -> bool {
    &&& h.name@ == display_name(s, k)
    &&& h.cpu == lookup_or(s.cpu@, k, 0u8)
    &&& h.cpu_temp == lookup_or(s.temp@, k, 0u8)
    &&& h.ram_pct == lookup_or(s.ram@, k, 0u8)
    &&& h.disk_pct == lookup_or(s.disk@, k, 0u8)
    &&& h.uptime_days == lookup_or(s.uptime@, k, 0u32)
    &&& h.ram_used_dgib == lookup_or(s.ram_used@, k, 0u32)
    &&& h.ram_total_gib == lookup_or(s.ram_total@, k, 0u32)
    &&& h.load_centi@ == seq![
        lookup_or(s.load1@, k, 0u32),
        lookup_or(s.load5@, k, 0u32),
        lookup_or(s.load15@, k, 0u32),
    ]
}

/// `v` lists one row per host, in increasing order of host key.
pub open spec fn hosts_table(v: Seq<HostData>, s: HostSamples) -> bool {
    exists|ks: Seq<Seq<char>>| {
        &&& strictly_sorted(ks)
        &&& ks.len() == v.len()
        &&& forall|k: Seq<char>| #[trigger] holds(ks, k) <==> host_keys(s).contains(k)
        &&& forall|i: int| 0 <= i < v.len() ==> #[trigger] host_row(v[i], s, ks[i])
    }
}

fn display_name_of(s: &HostSamples, k: &Vec<char>) -> (r: String)
    ensures
        r@ == display_name(*s, k@),
{
    match find_last(&s.names, k) {
        Some(i) => s.names[i].1.clone(),
        None => string_from_chars(k),
    }
}

/// The host table of a scrape, one row per host sorted by host key; `None`
/// when no query saw any host.
pub fn assemble_hosts(s: &HostSamples) -> (r: Option<Vec<HostData>>)
    ensures
        r is None <==> host_keys(*s) =~= Set::empty(),
        r matches Some(v) ==> hosts_table(v@, *s),
{
    let mut ks: Vec<Vec<char>> = Vec::new();
    assert(strictly_sorted(views(ks@)));
    insert_keys(&mut ks, &s.uptime);
    insert_keys(&mut ks, &s.cpu);
    insert_keys(&mut ks, &s.ram);
    insert_keys(&mut ks, &s.disk);
    let ghost kv = views(ks@);
    assert forall|k: Seq<char>| #[trigger] holds(kv, k) <==> host_keys(*s).contains(k) by {}
    if ks.len() == 0 {
        assert forall|k: Seq<char>| !host_keys(*s).contains(k) by {
            assert(!holds(kv, k));
        }
        assert(host_keys(*s) =~= Set::empty());
        return None;
    }
    assert(holds(kv, kv[0]));
    let mut out: Vec<HostData> = Vec::new();
    let mut i: usize = 0;
    while i < ks.len()
        invariant
            i <= ks@.len(),
            kv == views(ks@),
            out@.len() == i,
            forall|j: int| 0 <= j < i ==> #[trigger] host_row(out@[j], *s, kv[j]),
        decreases ks.len() - i,
    {
        let k = &ks[i];
        let row = HostData {
            name: display_name_of(s, k),
            cpu: lookup_u8(&s.cpu, k),
            cpu_temp: lookup_u8(&s.temp, k),
            ram_pct: lookup_u8(&s.ram, k),
            ram_used_dgib: lookup_u32(&s.ram_used, k),
            ram_total_gib: lookup_u32(&s.ram_total, k),
            disk_pct: lookup_u8(&s.disk, k),
            uptime_days: lookup_u32(&s.uptime, k),
            load_centi: [lookup_u32(&s.load1, k), lookup_u32(&s.load5, k), lookup_u32(&s.load15, k)],
        };
        assert(row.load_centi@ =~= seq![
            lookup_or(s.load1@, kv[i as int], 0u32),
            lookup_or(s.load5@, kv[i as int], 0u32),
            lookup_or(s.load15@, kv[i as int], 0u32),
        ]);
        out.push(row);
        i += 1;
    }
    assert(hosts_table(out@, *s)) by {
        assert(forall|j: int| 0 <= j < out@.len() ==> #[trigger] host_row(out@[j], *s, kv[j]));
    }
    Some(out)
}

// ── Cluster rollup ─────────────────────────────────────────────────────────

/// One cluster query's reading: `None` when the query failed, `Some(None)`
/// when it answered without a sample.
pub open spec fn reading(q: Option<Option<u8>>) -> u8 {
    match q {
        Some(Some(v)) => v,
        _ => 0,
    }
}

/// The cluster rollup: unavailable only when all three queries failed; a
/// metric without a sample reads 0 while another came through.
pub open spec fn spec_cluster(cpu: Option<Option<u8>>, ram: Option<Option<u8>>, disk: Option<Option<u8>>) -> Option<ClusterMetrics> {
    if cpu is None && ram is None && disk is None {
        None
    } else {
        Some(ClusterMetrics { cpu_pct: reading(cpu), ram_pct: reading(ram), disk_pct: reading(disk) })
    }
}

pub fn cluster_metrics(cpu: Option<Option<u8>>, ram: Option<Option<u8>>, disk: Option<Option<u8>>) -> (r: Option<ClusterMetrics>)
    ensures
        r == spec_cluster(cpu, ram, disk),
{
    if cpu.is_none() && ram.is_none() && disk.is_none() {
        return None;
    }
    let pick = |q: Option<Option<u8>>| -> (v: u8)
        ensures
            v == reading(q),
    {
        match q {
            Some(Some(v)) => v,
            _ => 0,
        }
    };
    Some(ClusterMetrics { cpu_pct: pick(cpu), ram_pct: pick(ram), disk_pct: pick(disk) })
}

} // verus!
