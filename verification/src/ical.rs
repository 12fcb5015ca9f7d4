//! iCalendar (RFC 5545) text handling for the agenda: line unfolding,
//! property lookup inside a VEVENT block, DTSTART/DTEND extraction and
//! ISO 8601 durations.

use vstd::prelude::*;
use crate::text::{chars_of, dec, digit_char, push_all, push_dec, push_str, string_from_chars, string_of};

verus! {

// ── Character-sequence vocabulary ──────────────────────────────────────────

/// `s` begins with `p`.
pub open spec fn starts_with(s: Seq<char>, p: Seq<char>) -> bool {
    p.len() <= s.len() && s.take(p.len() as int) == p
}

/// Index of the first occurrence of `c` in `s`, if any.
pub open spec fn find_char(s: Seq<char>, c: char) -> Option<int>
    decreases s.len(),
{
    if s.len() == 0 {
        None
    } else if s[0] == c {
        Some(0)
    } else {
        match find_char(s.skip(1), c) {
            Some(i) => Some(i + 1),
            None => None,
        }
    }
}

/// RFC 5545 unfolding: a line break followed by one space or tab joins the
/// next line (both removed); carriage returns are dropped.
pub open spec fn spec_unfold(s: Seq<char>) -> Seq<char>
    decreases s.len(),
{
    if s.len() == 0 {
        seq![]
    } else if s[0] == '\n' {
        if s.len() > 1 && (s[1] == ' ' || s[1] == '\t') {
            spec_unfold(s.skip(2))
        } else {
            seq!['\n'] + spec_unfold(s.skip(1))
        }
    } else if s[0] == '\r' {
        spec_unfold(s.skip(1))
    } else {
        seq![s[0]] + spec_unfold(s.skip(1))
    }
}

/// The lines of `s` as `str::lines` yields them: split at `\n`, one
/// trailing `\r` removed from each line, no final empty line after a
/// trailing `\n`.
pub open spec fn spec_lines(s: Seq<char>) -> Seq<Seq<char>>
    decreases s.len(),
{
    if s.len() == 0 {
        seq![]
    } else {
        proof {
            lemma_find_char(s, '\n');
        }
        match find_char(s, '\n') {
            None => seq![strip_cr(s)],
            Some(i) => seq![strip_cr(s.take(i))] + spec_lines(s.skip(i + 1)),
        }
    }
}

/// `l` without one trailing carriage return.
pub open spec fn strip_cr(l: Seq<char>) -> Seq<char> {
    if l.len() > 0 && l.last() == '\r' {
        l.drop_last()
    } else {
        l
    }
}

pub proof fn lemma_find_char(s: Seq<char>, c: char)
    ensures
        match find_char(s, c) {
            Some(i) => 0 <= i < s.len() && s[i] == c && forall|j: int| 0 <= j < i ==> s[j] != c,
            None => forall|j: int| 0 <= j < s.len() ==> s[j] != c,
        },
    decreases s.len(),
{
    if s.len() > 0 && s[0] != c {
        lemma_find_char(s.skip(1), c);
        match find_char(s.skip(1), c) {
            Some(i) => {
                assert forall|j: int| 0 <= j < i + 1 implies s[j] != c by {
                    if j > 0 {
                        assert(s[j] == s.skip(1)[j - 1]);
                    }
                }
            },
            None => {
                assert forall|j: int| 0 <= j < s.len() implies s[j] != c by {
                    if j > 0 {
                        assert(s[j] == s.skip(1)[j - 1]);
                    }
                }
            },
        }
    }
}

/// First index `>= from` holding `c`, as an executable search.
pub fn find_char_from(cs: &Vec<char>, from: usize, c: char) -> (r: Option<usize>)
    requires
        from <= cs@.len(),
    ensures
        match r {
            Some(i) => from <= i < cs@.len() && cs@[i as int] == c && find_char(cs@.skip(from as int), c) == Some(i - from),
            None => find_char(cs@.skip(from as int), c) is None,
        },
{
    let mut i = from;
    proof {
        lemma_find_char(cs@.skip(from as int), c);
    }
    while i < cs.len()
        invariant
            from <= i <= cs@.len(),
            forall|j: int| from <= j < i ==> cs@[j] != c,
        decreases cs.len() - i,
    {
        if cs[i] == c {
            proof {
                let t = cs@.skip(from as int);
                lemma_find_char(t, c);
                lemma_find_first_unique(t, c, i - from);
            }
            return Some(i);
        }
        i += 1;
    }
    proof {
        let t = cs@.skip(from as int);
        lemma_find_char(t, c);
        if let Some(k) = find_char(t, c) {
            assert(cs@[from + k] == t[k]);
        }
    }
    None
}

proof fn lemma_find_first_unique(t: Seq<char>, c: char, i: int)
    requires
        0 <= i < t.len(),
        t[i] == c,
        forall|j: int| 0 <= j < i ==> t[j] != c,
    ensures
        find_char(t, c) == Some(i),
{
    lemma_find_char(t, c);
    match find_char(t, c) {
        Some(k) => {
            if k < i {
                assert(t[k] != c);
            } else if k > i {
                assert(t[i] != c);
            }
        },
        None => {
            assert(t[i] != c);
        },
    }
}

/// `s` with RFC 5545 line folds joined and carriage returns removed.
pub fn unfold(s: &str) -> (r: String)
    ensures
        r@ == spec_unfold(s@),
{
    let cs = chars_of(s);
    let n = cs.len();
    let mut out: Vec<char> = Vec::new();
    let mut i: usize = 0;
    assert(cs@.skip(0) == cs@);
    assert(out@ + spec_unfold(cs@) == spec_unfold(cs@));
    while i < n
        invariant
            n == cs@.len(),
            i <= n,
            out@ + spec_unfold(cs@.skip(i as int)) == spec_unfold(cs@),
        decreases n - i,
    {
        let c = cs[i];
        let ghost t = cs@.skip(i as int);
        assert(t[0] == c);
        if c == '\n' {
            if i + 1 < n && (cs[i + 1] == ' ' || cs[i + 1] == '\t') {
                assert(t[1] == cs@[i + 1]);
                assert(t.skip(2) == cs@.skip(i + 2));
                i += 2;
                continue;
            }
            assert(t.len() > 1 ==> t[1] == cs@[i + 1]);
            assert(t.skip(1) == cs@.skip(i + 1));
            out.push('\n');
            assert(out@ + spec_unfold(cs@.skip(i + 1)) == old_out_plus(out@.drop_last(), '\n', spec_unfold(cs@.skip(i + 1))));
        } else if c == '\r' {
            assert(t.skip(1) == cs@.skip(i + 1));
        } else {
            assert(t.skip(1) == cs@.skip(i + 1));
            out.push(c);
            assert(out@ + spec_unfold(cs@.skip(i + 1)) == old_out_plus(out@.drop_last(), c, spec_unfold(cs@.skip(i + 1))));
        }
        i += 1;
    }
    assert(cs@.skip(n as int) == Seq::<char>::empty());
    assert(out@ + spec_unfold(Seq::<char>::empty()) == out@);
    string_from_chars(&out)
}

spec fn old_out_plus(prefix: Seq<char>, c: char, rest: Seq<char>) -> Seq<char> {
    prefix + (seq![c] + rest)
}

/// The lines of `cs` (see `spec_lines`), each as a character vector.
pub fn lines_of(cs: &Vec<char>) -> (r: Vec<Vec<char>>)
    ensures
        r@.len() == spec_lines(cs@).len(),
        forall|k: int| 0 <= k < r@.len() ==> (#[trigger] r@[k])@ == spec_lines(cs@)[k],
{
    let n = cs.len();
    let mut out: Vec<Vec<char>> = Vec::new();
    let ghost mut done: Seq<Seq<char>> = seq![];
    let mut start: usize = 0;
    assert(cs@.skip(0) == cs@);
    assert(done + spec_lines(cs@) == spec_lines(cs@));
    while start < n
        invariant
            n == cs@.len(),
            start <= n,
            out@.len() == done.len(),
            forall|k: int| 0 <= k < out@.len() ==> (#[trigger] out@[k])@ == done[k],
            done + spec_lines(cs@.skip(start as int)) == spec_lines(cs@),
        decreases n - start,
    {
        let ghost t = cs@.skip(start as int);
        let end_opt = find_char_from(cs, start, '\n');
        let end = match end_opt {
            Some(e) => e,
            None => n,
        };
        let mut line: Vec<char> = Vec::new();
        let mut j = start;
        while j < end
            invariant
                start <= j <= end <= n,
                n == cs@.len(),
                line@ == cs@.subrange(start as int, j as int),
            decreases end - j,
        {
            line.push(cs[j]);
            assert(cs@.subrange(start as int, j + 1) == cs@.subrange(start as int, j as int).push(cs@[j as int]));
            j += 1;
        }
        if line.len() > 0 && line[line.len() - 1] == '\r' {
            line.pop();
        }
        proof {
            match end_opt {
                Some(e) => {
                    assert(t.take(e - start) == cs@.subrange(start as int, e as int));
                    assert(t.skip(e - start + 1) == cs@.skip(e + 1));
                },
                None => {
                    assert(t == cs@.subrange(start as int, n as int));
                },
            }
            done = done.push(line@);
        }
        out.push(line);
        start = match end_opt {
            Some(e) => e + 1,
            None => n,
        };
        proof {
            if end_opt is None {
                assert(cs@.skip(n as int) == Seq::<char>::empty());
                assert(spec_lines(Seq::<char>::empty()) == Seq::<Seq<char>>::empty());
                assert(done + Seq::<Seq<char>>::empty() == done);
            }
        }
    }
    proof {
        assert(cs@.skip(n as int) == Seq::<char>::empty());
        assert(done + Seq::<Seq<char>>::empty() == done);
    }
    out
}

/// `cs` starts with the characters of `p`.
pub fn has_prefix(cs: &Vec<char>, p: &Vec<char>) -> (r: bool)
    ensures
        r == starts_with(cs@, p@),
{
    if p.len() > cs.len() {
        return false;
    }
    let mut i: usize = 0;
    while i < p.len()
        invariant
            p@.len() <= cs@.len(),
            i <= p@.len(),
            forall|j: int| 0 <= j < i ==> cs@[j] == p@[j],
        decreases p.len() - i,
    {
        if cs[i] != p[i] {
            assert(cs@.take(p@.len() as int)[i as int] != p@[i as int]);
            return false;
        }
        i += 1;
    }
    assert(cs@.take(p@.len() as int) =~= p@);
    true
}

/// `cs[from..to]` as a new vector.
pub fn slice_chars(cs: &Vec<char>, from: usize, to: usize) -> (r: Vec<char>)
    requires
        from <= to <= cs@.len(),
    ensures
        r@ == cs@.subrange(from as int, to as int),
{
    let mut out: Vec<char> = Vec::new();
    let mut j = from;
    while j < to
        invariant
            from <= j <= to <= cs@.len(),
            out@ == cs@.subrange(from as int, j as int),
        decreases to - j,
    {
        out.push(cs[j]);
        assert(cs@.subrange(from as int, j + 1) == cs@.subrange(from as int, j as int).push(cs@[j as int]));
        j += 1;
    }
    out
}

// ── Property lookup ────────────────────────────────────────────────────────

/// Value of the first line of the form `KEY:value`.
pub open spec fn spec_field_in(ls: Seq<Seq<char>>, key: Seq<char>) -> Option<Seq<char>>
    decreases ls.len(),
{
    if ls.len() == 0 {
        None
    } else if starts_with(ls[0], key + seq![':']) {
        Some(ls[0].skip(key.len() as int + 1))
    } else {
        spec_field_in(ls.skip(1), key)
    }
}

/// Value of the first line of the form `KEY:value` or `KEY;params:value`
/// (everything after the first colon); a `KEY;...` line without a colon is
/// passed over.
pub open spec fn spec_field_value_in(ls: Seq<Seq<char>>, key: Seq<char>) -> Option<Seq<char>>
    decreases ls.len(),
{
    if ls.len() == 0 {
        None
    } else if starts_with(ls[0], key + seq![':']) {
        Some(ls[0].skip(key.len() as int + 1))
    } else if starts_with(ls[0], key + seq![';']) && find_char(ls[0], ':') is Some {
        Some(ls[0].skip(find_char(ls[0], ':')->0 + 1))
    } else {
        spec_field_value_in(ls.skip(1), key)
    }
}

fn prefix_with(key: &str, sep: char) -> (r: Vec<char>)
    ensures
        r@ == key@ + seq![sep],
{
    let mut p = chars_of(key);
    p.push(sep);
    p
}

/// `KEY:value` lookup in a VEVENT block (exact key match).
pub fn ical_field(block: &str, key: &str) -> (r: Option<String>)
    ensures
        match r {
            Some(v) => spec_field_in(spec_lines(block@), key@) == Some(v@),
            None => spec_field_in(spec_lines(block@), key@) is None,
        },
{
    let prefix = prefix_with(key, ':');
    let ls = lines_of(&chars_of(block));
    let ghost all = spec_lines(block@);
    let mut i: usize = 0;
    assert(all.skip(0) == all);
    while i < ls.len()
        invariant
            i <= ls@.len(),
            ls@.len() == all.len(),
            all == spec_lines(block@),
            forall|k: int| 0 <= k < ls@.len() ==> (#[trigger] ls@[k])@ == all[k],
            spec_field_in(all, key@) == spec_field_in(all.skip(i as int), key@),
            prefix@ == key@ + seq![':'],
        decreases ls.len() - i,
    {
        let ghost t = all.skip(i as int);
        assert(t[0] == all[i as int]);
        assert(t.skip(1) == all.skip(i + 1));
        if has_prefix(&ls[i], &prefix) {
            let v = slice_chars(&ls[i], prefix.len(), ls[i].len());
            assert(v@ == all[i as int].skip(key@.len() as int + 1));
            assert(spec_field_in(t, key@) == Some(t[0].skip(key@.len() as int + 1)));
            return Some(string_from_chars(&v));
        }
        i += 1;
    }
    assert(all.skip(ls@.len() as int) == Seq::<Seq<char>>::empty());
    None
}

/// `KEY:value` / `KEY;params:value` lookup in a VEVENT block.
pub fn ical_field_value(block: &str, key: &str) -> (r: Option<String>)
    ensures
        match r {
            Some(v) => spec_field_value_in(spec_lines(block@), key@) == Some(v@),
            None => spec_field_value_in(spec_lines(block@), key@) is None,
        },
{
    let exact = prefix_with(key, ':');
    let prefixed = prefix_with(key, ';');
    let ls = lines_of(&chars_of(block));
    let ghost all = spec_lines(block@);
    let mut i: usize = 0;
    assert(all.skip(0) == all);
    while i < ls.len()
        invariant
            i <= ls@.len(),
            ls@.len() == all.len(),
            all == spec_lines(block@),
            forall|k: int| 0 <= k < ls@.len() ==> (#[trigger] ls@[k])@ == all[k],
            spec_field_value_in(all, key@) == spec_field_value_in(all.skip(i as int), key@),
            exact@ == key@ + seq![':'],
            prefixed@ == key@ + seq![';'],
        decreases ls.len() - i,
    {
        let ghost t = all.skip(i as int);
        assert(t[0] == all[i as int]);
        assert(t.skip(1) == all.skip(i + 1));
        let line = &ls[i];
        if has_prefix(line, &exact) {
            let v = slice_chars(line, exact.len(), line.len());
            assert(v@ == all[i as int].skip(key@.len() as int + 1));
            assert(spec_field_value_in(t, key@) == Some(t[0].skip(key@.len() as int + 1)));
            return Some(string_from_chars(&v));
        }
        if has_prefix(line, &prefixed) {
            match find_char_from(line, 0, ':') {
                Some(pos) => {
                    assert(line@.skip(0) == line@);
                    let ll = line.len();
                    assert(pos < ll);
                    let v = slice_chars(line, pos + 1, ll);
                    assert(v@ == all[i as int].skip(pos + 1));
                    assert(spec_field_value_in(t, key@) == Some(t[0].skip(pos + 1)));
                    return Some(string_from_chars(&v));
                },
                None => {
                    assert(line@.skip(0) == line@);
                },
            }
        }
        i += 1;
    }
    assert(all.skip(ls@.len() as int) == Seq::<Seq<char>>::empty());
    None
}

// ── Splitting and trimming ─────────────────────────────────────────────────

/// Pieces of `s` between occurrences of `c`, as `str::split(c)` yields them
/// (always at least one piece).
pub open spec fn spec_split(s: Seq<char>, c: char) -> Seq<Seq<char>>
    decreases s.len(),
{
    proof {
        lemma_find_char(s, c);
    }
    match find_char(s, c) {
        None => seq![s],
        Some(i) => seq![s.take(i)] + spec_split(s.skip(i + 1), c),
    }
}

/// `s` without any leading or trailing `c` (`str::trim_matches(c)`).
pub open spec fn trim_char(s: Seq<char>, c: char) -> Seq<char>
    decreases s.len(),
{
    if s.len() == 0 {
        s
    } else if s[0] == c {
        trim_char(s.skip(1), c)
    } else if s.last() == c {
        trim_char(s.drop_last(), c)
    } else {
        s
    }
}

/// `cs[from..]` split at every `c` (see `spec_split`).
pub fn split_chars(cs: &Vec<char>, c: char) -> (r: Vec<Vec<char>>)
    ensures
        r@.len() == spec_split(cs@, c).len(),
        forall|k: int| 0 <= k < r@.len() ==> (#[trigger] r@[k])@ == spec_split(cs@, c)[k],
{
    let n = cs.len();
    let mut out: Vec<Vec<char>> = Vec::new();
    let ghost mut done: Seq<Seq<char>> = seq![];
    let mut start: usize = 0;
    assert(cs@.skip(0) == cs@);
    assert(done + spec_split(cs@, c) == spec_split(cs@, c));
    loop
        invariant
            n == cs@.len(),
            start <= n,
            out@.len() == done.len(),
            forall|k: int| 0 <= k < out@.len() ==> (#[trigger] out@[k])@ == done[k],
            done + spec_split(cs@.skip(start as int), c) == spec_split(cs@, c),
        decreases n - start,
    {
        let ghost t = cs@.skip(start as int);
        match find_char_from(cs, start, c) {
            Some(e) => {
                let piece = slice_chars(cs, start, e);
                assert(t.take(e - start) == cs@.subrange(start as int, e as int));
                assert(t.skip(e - start + 1) == cs@.skip(e + 1));
                proof {
                    done = done.push(piece@);
                }
                out.push(piece);
                start = e + 1;
            },
            None => {
                let piece = slice_chars(cs, start, n);
                assert(t == cs@.subrange(start as int, n as int));
                proof {
                    done = done.push(piece@);
                }
                out.push(piece);
                assert(done == spec_split(cs@, c));
                return out;
            },
        }
    }
}

/// `cs` without leading and trailing `c`.
pub fn trim_chars(cs: &Vec<char>, c: char) -> (r: Vec<char>)
    ensures
        r@ == trim_char(cs@, c),
{
    let mut a: usize = 0;
    let mut b: usize = cs.len();
    assert(cs@.subrange(0, cs@.len() as int) == cs@);
    while a < b && cs[a] == c
        invariant
            0 <= a <= b == cs@.len(),
            trim_char(cs@, c) == trim_char(cs@.subrange(a as int, b as int), c),
        decreases b - a,
    {
        assert(cs@.subrange(a as int, b as int).skip(1) == cs@.subrange(a + 1, b as int));
        a += 1;
    }
    while a < b && cs[b - 1] == c
        invariant
            0 <= a <= b <= cs@.len(),
            a < b ==> cs@[a as int] != c,
            trim_char(cs@, c) == trim_char(cs@.subrange(a as int, b as int), c),
        decreases b - a,
    {
        assert(cs@.subrange(a as int, b as int).drop_last() == cs@.subrange(a as int, b - 1));
        b -= 1;
    }
    slice_chars(cs, a, b)
}

// ── DTSTART / DTEND ────────────────────────────────────────────────────────

/// TZID parameter among `;`-separated parameters, quotes trimmed.
pub open spec fn spec_tzid_param(params: Seq<Seq<char>>) -> Option<Seq<char>>
    decreases params.len(),
{
    if params.len() == 0 {
        None
    } else if starts_with(params[0], "TZID="@) {
        Some(trim_char(params[0].skip(5), '"'))
    } else {
        spec_tzid_param(params.skip(1))
    }
}

/// Outcome of the first DTSTART line of a block: `None` when there is none
/// or when it has parameters but no colon; else `(TZID, value)`.
pub open spec fn spec_dtstart_in(ls: Seq<Seq<char>>) -> Option<(Option<Seq<char>>, Seq<char>)>
    decreases ls.len(),
{
    if ls.len() == 0 {
        None
    } else if starts_with(ls[0], "DTSTART:"@) {
        Some((None, ls[0].skip(8)))
    } else if starts_with(ls[0], "DTSTART;"@) {
        let rest = ls[0].skip(8);
        match find_char(rest, ':') {
            None => None,
            Some(k) => Some((spec_tzid_param(spec_split(rest.take(k), ';')), rest.skip(k + 1))),
        }
    } else {
        spec_dtstart_in(ls.skip(1))
    }
}

/// Value of the first DTEND line (`None` as for DTSTART).
pub open spec fn spec_dtend_in(ls: Seq<Seq<char>>) -> Option<Seq<char>>
    decreases ls.len(),
{
    if ls.len() == 0 {
        None
    } else if starts_with(ls[0], "DTEND:"@) {
        Some(ls[0].skip(6))
    } else if starts_with(ls[0], "DTEND;"@) {
        let rest = ls[0].skip(6);
        match find_char(rest, ':') {
            None => None,
            Some(k) => Some(rest.skip(k + 1)),
        }
    } else {
        spec_dtend_in(ls.skip(1))
    }
}

/// A DTSTART value with its optional TZID parameter.
pub struct DtStart {
    pub tzid: Option<String>,
    pub value: String,
}

/// The TZID parameter among the `;`-separated parameters `params`.
fn tzid_of(params: &Vec<char>) -> (r: Option<String>)
    ensures
        match r {
            Some(z) => spec_tzid_param(spec_split(params@, ';')) == Some(z@),
            None => spec_tzid_param(spec_split(params@, ';')) is None,
        },
{
    proof {
        reveal_strlit("TZID=");
    }
    let tz = chars_of("TZID=");
    let pieces = split_chars(params, ';');
    let ghost ps = spec_split(params@, ';');
    let mut k: usize = 0;
    assert(ps.skip(0) == ps);
    while k < pieces.len()
        invariant
            k <= pieces@.len(),
            pieces@.len() == ps.len(),
            ps == spec_split(params@, ';'),
            forall|q: int| 0 <= q < pieces@.len() ==> (#[trigger] pieces@[q])@ == ps[q],
            tz@ == "TZID="@,
            tz@.len() == 5,
            spec_tzid_param(ps) == spec_tzid_param(ps.skip(k as int)),
        decreases pieces.len() - k,
    {
        let ghost u = ps.skip(k as int);
        assert(u[0] == ps[k as int]);
        assert(u.skip(1) == ps.skip(k + 1));
        if has_prefix(&pieces[k], &tz) {
            let body = slice_chars(&pieces[k], 5, pieces[k].len());
            let trimmed = trim_chars(&body, '"');
            return Some(string_from_chars(&trimmed));
        }
        k += 1;
    }
    assert(ps.skip(pieces@.len() as int) == Seq::<Seq<char>>::empty());
    None
}

/// Locates the DTSTART line in a VEVENT block and returns its TZID and value.
pub fn ical_dtstart(block: &str) -> (r: Option<DtStart>)
    ensures
        match r {
            Some(d) => spec_dtstart_in(spec_lines(block@)) == Some((
                match d.tzid { Some(z) => Some(z@), None => None },
                d.value@,
            )),
            None => spec_dtstart_in(spec_lines(block@)) is None,
        },
{
    proof {
        reveal_strlit("DTSTART:");
        reveal_strlit("DTSTART;");
        reveal_strlit("TZID=");
    }
    let plain = chars_of("DTSTART:");
    let param = chars_of("DTSTART;");
    let tz = chars_of("TZID=");
    let ls = lines_of(&chars_of(block));
    let ghost all = spec_lines(block@);
    let mut i: usize = 0;
    assert(all.skip(0) == all);
    while i < ls.len()
        invariant
            i <= ls@.len(),
            ls@.len() == all.len(),
            all == spec_lines(block@),
            forall|k: int| 0 <= k < ls@.len() ==> (#[trigger] ls@[k])@ == all[k],
            spec_dtstart_in(all) == spec_dtstart_in(all.skip(i as int)),
            plain@ == "DTSTART:"@,
            param@ == "DTSTART;"@,
            tz@ == "TZID="@,
            plain@.len() == 8,
            param@.len() == 8,
            tz@.len() == 5,
        decreases ls.len() - i,
    {
        let ghost t = all.skip(i as int);
        assert(t[0] == all[i as int]);
        assert(t.skip(1) == all.skip(i + 1));
        let line = &ls[i];
        let ll = line.len();
        if has_prefix(line, &plain) {
            let v = slice_chars(line, 8, ll);
            return Some(DtStart { tzid: None, value: string_from_chars(&v) });
        }
        if has_prefix(line, &param) {
            let rest = slice_chars(line, 8, ll);
            assert(rest@.skip(0) == rest@);
            match find_char_from(&rest, 0, ':') {
                None => {
                    return None;
                },
                Some(colon) => {
                    let params = slice_chars(&rest, 0, colon);
                    let value = slice_chars(&rest, colon + 1, rest.len());
                    assert(params@ == rest@.take(colon as int));
                    let tzid = tzid_of(&params);
                    return Some(DtStart { tzid, value: string_from_chars(&value) });
                },
            }
        }
        i += 1;
    }
    assert(all.skip(ls@.len() as int) == Seq::<Seq<char>>::empty());
    None
}

/// Locates the DTEND line in a VEVENT block and returns its value.
pub fn ical_dtend(block: &str) -> (r: Option<String>)
    ensures
        match r {
            Some(v) => spec_dtend_in(spec_lines(block@)) == Some(v@),
            None => spec_dtend_in(spec_lines(block@)) is None,
        },
{
    proof {
        reveal_strlit("DTEND:");
        reveal_strlit("DTEND;");
    }
    let plain = chars_of("DTEND:");
    let param = chars_of("DTEND;");
    let ls = lines_of(&chars_of(block));
    let ghost all = spec_lines(block@);
    let mut i: usize = 0;
    assert(all.skip(0) == all);
    while i < ls.len()
        invariant
            i <= ls@.len(),
            ls@.len() == all.len(),
            all == spec_lines(block@),
            forall|k: int| 0 <= k < ls@.len() ==> (#[trigger] ls@[k])@ == all[k],
            spec_dtend_in(all) == spec_dtend_in(all.skip(i as int)),
            plain@ == "DTEND:"@,
            param@ == "DTEND;"@,
            plain@.len() == 6,
            param@.len() == 6,
        decreases ls.len() - i,
    {
        let ghost t = all.skip(i as int);
        assert(t[0] == all[i as int]);
        assert(t.skip(1) == all.skip(i + 1));
        let line = &ls[i];
        let ll = line.len();
        if has_prefix(line, &plain) {
            let v = slice_chars(line, 6, ll);
            return Some(string_from_chars(&v));
        }
        if has_prefix(line, &param) {
            let rest = slice_chars(line, 6, ll);
            assert(rest@.skip(0) == rest@);
            match find_char_from(&rest, 0, ':') {
                None => {
                    return None;
                },
                Some(colon) => {
                    let value = slice_chars(&rest, colon + 1, rest.len());
                    return Some(string_from_chars(&value));
                },
            }
        }
        i += 1;
    }
    assert(all.skip(ls@.len() as int) == Seq::<Seq<char>>::empty());
    None
}

// ── Numbers and durations ──────────────────────────────────────────────────

/// `char::is_whitespace`: the Unicode White_Space property.
pub open spec fn is_ws(c: char) -> bool {
    ||| ('\u{9}' <= c && c <= '\u{d}')
    ||| c == ' '
    ||| c == '\u{85}'
    ||| c == '\u{a0}'
    ||| c == '\u{1680}'
    ||| ('\u{2000}' <= c && c <= '\u{200a}')
    ||| c == '\u{2028}'
    ||| c == '\u{2029}'
    ||| c == '\u{202f}'
    ||| c == '\u{205f}'
    ||| c == '\u{3000}'
}

pub fn is_whitespace(c: char) -> (r: bool)
    ensures
        r == is_ws(c),
{
    ('\u{9}' <= c && c <= '\u{d}') || c == ' ' || c == '\u{85}' || c == '\u{a0}' || c == '\u{1680}'
        || ('\u{2000}' <= c && c <= '\u{200a}') || c == '\u{2028}' || c == '\u{2029}' || c
        == '\u{202f}' || c == '\u{205f}' || c == '\u{3000}'
}

/// `str::trim`: `s` without leading and trailing whitespace.
pub open spec fn trim_ws(s: Seq<char>) -> Seq<char>
    decreases s.len(),
{
    if s.len() == 0 {
        s
    } else if is_ws(s[0]) {
        trim_ws(s.skip(1))
    } else if is_ws(s.last()) {
        trim_ws(s.drop_last())
    } else {
        s
    }
}

/// `cs` without leading and trailing whitespace.
pub fn trim_ws_chars(cs: &Vec<char>) -> (r: Vec<char>)
    ensures
        r@ == trim_ws(cs@),
{
    let mut a: usize = 0;
    let mut b: usize = cs.len();
    assert(cs@.subrange(0, cs@.len() as int) == cs@);
    while a < b && is_whitespace(cs[a])
        invariant
            0 <= a <= b == cs@.len(),
            trim_ws(cs@) == trim_ws(cs@.subrange(a as int, b as int)),
        decreases b - a,
    {
        assert(cs@.subrange(a as int, b as int).skip(1) == cs@.subrange(a + 1, b as int));
        a += 1;
    }
    while a < b && is_whitespace(cs[b - 1])
        invariant
            0 <= a <= b <= cs@.len(),
            a < b ==> !is_ws(cs@[a as int]),
            trim_ws(cs@) == trim_ws(cs@.subrange(a as int, b as int)),
        decreases b - a,
    {
        assert(cs@.subrange(a as int, b as int).drop_last() == cs@.subrange(a as int, b - 1));
        b -= 1;
    }
    slice_chars(cs, a, b)
}

pub open spec fn is_digit(c: char) -> bool {
    '0' <= c && c <= '9'
}

/// Value of a string of ASCII digits.
pub open spec fn digits_value(s: Seq<char>) -> int
    decreases s.len(),
{
    if s.len() == 0 {
        0
    } else {
        digits_value(s.drop_last()) * 10 + (s.last() as int - '0' as int)
    }
}

/// `s` without one leading `+`.
pub open spec fn unsigned_body(s: Seq<char>) -> Seq<char> {
    if s.len() > 0 && s[0] == '+' { s.skip(1) } else { s }
}

/// Every character of `b` is an ASCII digit.
pub open spec fn all_digits(b: Seq<char>) -> bool {
    forall|i: int| 0 <= i < b.len() ==> is_digit(#[trigger] b[i])
}

/// `u32::from_str`: an optional `+` then one or more ASCII digits whose
/// value fits in 32 bits.
pub open spec fn spec_parse_u32(s: Seq<char>) -> Option<u32> {
    let body = unsigned_body(s);
    if body.len() == 0 || !all_digits(body) {
        None
    } else if digits_value(body) > u32::MAX {
        None
    } else {
        Some(digits_value(body) as u32)
    }
}

proof fn lemma_digits_value_mono(s: Seq<char>, k: int)
    requires
        0 <= k <= s.len(),
        forall|i: int| 0 <= i < s.len() ==> is_digit(#[trigger] s[i]),
    ensures
        0 <= digits_value(s.take(k)) <= digits_value(s),
    decreases s.len() - k,
{
    if k < s.len() {
        lemma_digits_value_mono(s, k + 1);
        assert(s.take(k + 1).drop_last() == s.take(k));
        assert(s.take(k + 1).last() == s[k]);
    } else {
        assert(s.take(k) == s);
    }
    if k == 0 {
        assert(s.take(0).len() == 0);
    } else {
        lemma_digits_value_nonneg(s.take(k));
    }
}

proof fn lemma_digits_value_nonneg(s: Seq<char>)
    requires
        forall|i: int| 0 <= i < s.len() ==> is_digit(#[trigger] s[i]),
    ensures
        digits_value(s) >= 0,
    decreases s.len(),
{
    if s.len() > 0 {
        assert forall|i: int| 0 <= i < s.drop_last().len() implies is_digit(#[trigger] s.drop_last()[i]) by {
            assert(s.drop_last()[i] == s[i]);
        }
        lemma_digits_value_nonneg(s.drop_last());
        assert(is_digit(s[s.len() - 1]));
    }
}

proof fn lemma_parse_bad_digit(s: Seq<char>, body: Seq<char>, k: int)
    requires
        body == (if s.len() > 0 && s[0] == '+' { s.skip(1) } else { s }),
        0 <= k < body.len(),
        !is_digit(body[k]),
    ensures
        spec_parse_u32(s) is None,
{
}

proof fn lemma_parse_too_big(s: Seq<char>, body: Seq<char>)
    requires
        body == (if s.len() > 0 && s[0] == '+' { s.skip(1) } else { s }),
        digits_value(body) > u32::MAX,
    ensures
        spec_parse_u32(s) is None,
{
}

/// `u32::from_str` on a character vector.
pub fn parse_u32(cs: &Vec<char>) -> (r: Option<u32>)
    ensures
        r == spec_parse_u32(cs@),
{
    let n = cs.len();
    let start: usize = if n > 0 && cs[0] == '+' { 1 } else { 0 };
    let ghost body = if cs@.len() > 0 && cs@[0] == '+' { cs@.skip(1) } else { cs@ };
    assert(body == cs@.skip(start as int));
    if start >= n {
        return None;
    }
    let mut v: u64 = 0;
    let mut i = start;
    while i < n
        invariant
            start <= i <= n,
            n == cs@.len(),
            start < n,
            body == cs@.skip(start as int),
            body == (if cs@.len() > 0 && cs@[0] == '+' { cs@.skip(1) } else { cs@ }),
            forall|j: int| start <= j < i ==> is_digit(#[trigger] cs@[j]),
            v == digits_value(cs@.subrange(start as int, i as int)),
            v <= u32::MAX,
        decreases n - i,
    {
        let c = cs[i];
        if !('0' <= c && c <= '9') {
            assert(!is_digit(body[i - start]));
            proof {
                lemma_parse_bad_digit(cs@, body, i - start);
            }
            return None;
        }
        let d = (c as u32 - '0' as u32) as u64;
        assert(cs@.subrange(start as int, i + 1).drop_last() == cs@.subrange(start as int, i as int));
        v = v * 10 + d;
        if v > 0xffff_ffff {
            proof {
                assert forall|j: int| 0 <= j < i + 1 - start implies is_digit(#[trigger] cs@.subrange(start as int, i + 1)[j]) by {
                    assert(cs@.subrange(start as int, i + 1)[j] == cs@[start + j]);
                }
                if forall|j: int| 0 <= j < body.len() ==> is_digit(#[trigger] body[j]) {
                    assert(body.take(i + 1 - start) == cs@.subrange(start as int, i + 1));
                    lemma_digits_value_mono(body, i + 1 - start);
                    lemma_parse_too_big(cs@, body);
                } else {
                    let k = choose|k: int| 0 <= k < body.len() && !is_digit(#[trigger] body[k]);
                    lemma_parse_bad_digit(cs@, body, k);
                }
            }
            return None;
        }
        i += 1;
    }
    assert(cs@.subrange(start as int, n as int) == body);
    assert forall|j: int| 0 <= j < body.len() implies is_digit(#[trigger] body[j]) by {
        assert(body[j] == cs@[start + j]);
    }
    Some(v as u32)
}

/// Scan of the time part of a duration: digits accumulate in `buf`; `H`,
/// `M`, `S` close a number. Hours and minutes add to the total; seconds,
/// rounded to the nearest minute, add only when no hours or minutes were
/// given (`hm` records that some were); anything else fails.
pub open spec fn time_scan(cs: Seq<char>, buf: Seq<char>, total: u32, hm: bool) -> Option<u32>
    decreases cs.len(),
{
    if cs.len() == 0 {
        Some(total)
    } else {
        let c = cs[0];
        let rest = cs.skip(1);
        if is_digit(c) {
            time_scan(rest, buf.push(c), total, hm)
        } else if c == 'H' || c == 'M' || c == 'S' {
            match spec_parse_u32(buf) {
                None => None,
                Some(n) => {
                    let add: u32 = if c == 'H' {
                        sat_mul(n, 60)
                    } else if c == 'M' {
                        n
                    } else if hm {
                        0
                    } else {
                        ((n + 30) / 60) as u32
                    };
                    time_scan(rest, seq![], sat_add(total, add), hm || c != 'S')
                },
            }
        } else {
            None
        }
    }
}

/// 32-bit saturating product.
pub open spec fn sat_mul(a: u32, b: u32) -> u32 {
    if a * b > u32::MAX { u32::MAX } else { (a * b) as u32 }
}

fn sat_mul_exec(a: u32, b: u32) -> (r: u32)
    ensures
        r == sat_mul(a, b),
{
    assert(a as int * b as int <= 0xffff_ffff * 0xffff_ffff) by (nonlinear_arith)
        requires
            a <= 0xffff_ffff,
            b <= 0xffff_ffff,
    ;
    let p: u64 = (a as u64) * (b as u64);
    if p > u32::MAX as u64 { u32::MAX } else { p as u32 }
}

/// 32-bit saturating sum.
pub open spec fn sat_add(a: u32, b: u32) -> u32 {
    if a + b > u32::MAX { u32::MAX } else { (a + b) as u32 }
}

/// Minutes of an iCalendar duration: `[-]P[nD][T[nH][nM][nS]]` or the
/// `P[n]D` shorthand. Every product and partial sum saturates at
/// `u32::MAX`.
pub open spec fn spec_duration_minutes(s0: Seq<char>) -> Option<u32> {
    let s1 = trim_ws(s0);
    let s = if s1.len() > 0 && s1[0] == '-' { s1.skip(1) } else { s1 };
    if s1.len() == 0 || s.len() == 0 || s[0] != 'P' {
        None
    } else {
        let rest = s.skip(1);
        match find_char(rest, 'T') {
            Some(t) => {
                let day = rest.take(t);
                match find_char(day, 'D') {
                    Some(d) => match spec_parse_u32(day.take(d)) {
                        None => None,
                        Some(n) => time_scan(rest.skip(t + 1), seq![], sat_add(0, sat_mul(n, 1440)), false),
                    },
                    None => time_scan(rest.skip(t + 1), seq![], 0, false),
                }
            },
            None => match find_char(rest, 'D') {
                Some(d) => match spec_parse_u32(rest.take(d)) {
                    None => None,
                    Some(n) => Some(sat_mul(n, 1440)),
                },
                None => time_scan(rest, seq![], 0, false),
            },
        }
    }
}

fn time_scan_exec(cs: &Vec<char>, from: usize, base: u32) -> (r: Option<u32>)
    requires
        from <= cs@.len(),
    ensures
        r == time_scan(cs@.skip(from as int), seq![], base, false),
{
    let n = cs.len();
    let mut buf: Vec<char> = Vec::new();
    let mut total = base;
    let mut hm = false;
    let mut i = from;
    assert(time_scan(cs@.skip(from as int), seq![], base, false) == time_scan(cs@.skip(i as int), buf@, total, hm));
    while i < n
        invariant
            from <= i <= n,
            n == cs@.len(),
            time_scan(cs@.skip(from as int), seq![], base, false) == time_scan(cs@.skip(i as int), buf@, total, hm),
        decreases n - i,
    {
        let c = cs[i];
        let ghost t = cs@.skip(i as int);
        assert(t[0] == c);
        assert(t.skip(1) == cs@.skip(i + 1));
        if '0' <= c && c <= '9' {
            buf.push(c);
        } else if c == 'H' || c == 'M' || c == 'S' {
            match parse_u32(&buf) {
                None => {
                    return None;
                },
                Some(v) => {
                    if c == 'H' {
                        total = total.saturating_add(sat_mul_exec(v, 60));
                        hm = true;
                    } else if c == 'M' {
                        total = total.saturating_add(v);
                        hm = true;
                    } else if !hm {
                        let rounded = ((v as u64 + 30) / 60) as u32;
                        total = total.saturating_add(rounded);
                    } else {
                        total = total.saturating_add(0);
                    }
                    buf = Vec::new();
                },
            }
        } else {
            return None;
        }
        i += 1;
    }
    assert(cs@.skip(n as int) == Seq::<char>::empty());
    Some(total)
}

/// Minimal ISO 8601 duration parser for the forms iCalendar emits.
pub fn parse_iso8601_duration_minutes(s: &str) -> (r: Option<u32>)
    ensures
        r == spec_duration_minutes(s@),
{
    let s1 = trim_ws_chars(&chars_of(s));
    if s1.len() == 0 {
        return None;
    }
    let off: usize = if s1[0] == '-' { 1 } else { 0 };
    if off >= s1.len() || s1[off] != 'P' {
        return None;
    }
    let rest = slice_chars(&s1, off + 1, s1.len());
    let ghost sv = if s1@.len() > 0 && s1@[0] == '-' { s1@.skip(1) } else { s1@ };
    assert(sv.skip(1) == rest@);
    assert(rest@.skip(0) == rest@);
    match find_char_from(&rest, 0, 'T') {
        Some(t) => {
            let day = slice_chars(&rest, 0, t);
            assert(day@ == rest@.take(t as int));
            assert(day@.skip(0) == day@);
            let base: u32 = match find_char_from(&day, 0, 'D') {
                Some(d) => {
                    let num = slice_chars(&day, 0, d);
                    assert(num@ == day@.take(d as int));
                    match parse_u32(&num) {
                        None => {
                            return None;
                        },
                        Some(v) => 0u32.saturating_add(sat_mul_exec(v, 1440)),
                    }
                },
                None => 0,
            };
            time_scan_exec(&rest, t + 1, base)
        },
        None => {
            match find_char_from(&rest, 0, 'D') {
                Some(d) => {
                    let num = slice_chars(&rest, 0, d);
                    assert(num@ == rest@.take(d as int));
                    match parse_u32(&num) {
                        None => None,
                        Some(v) => Some(sat_mul_exec(v, 1440)),
                    }
                },
                None => time_scan_exec(&rest, 0, 0),
            }
        },
    }
}

/// The digits of `dec(n)` read back as `n`.
proof fn lemma_dec_digits(n: nat)
    ensures
        all_digits(dec(n)),
        dec(n).len() >= 1,
        digits_value(dec(n)) == n,
    decreases n,
{
    assert(forall|k: int| 0 <= k < 10 ==> #[trigger] digit_char(k) as int == '0' as int + k);
    if n < 10 {
        assert(dec(n).drop_last() =~= Seq::<char>::empty());
        assert(digits_value(dec(n)) == digits_value(Seq::<char>::empty()) * 10 + (digit_char(n as int) as int - '0' as int));
    } else {
        lemma_dec_digits(n / 10);
        let d = dec(n / 10);
        assert(dec(n).drop_last() == d);
        assert(dec(n).last() == digit_char((n % 10) as int));
        assert(digits_value(dec(n)) == digits_value(d) * 10 + (digit_char((n % 10) as int) as int - '0' as int));
        assert forall|i: int| 0 <= i < dec(n).len() implies is_digit(#[trigger] dec(n)[i]) by {
            if i < d.len() {
                assert(dec(n)[i] == d[i]);
            }
        }
    }
}

/// `u32::from_str` reads `dec(n)` back as `n`.
proof fn lemma_parse_dec(n: u32)
    ensures
        spec_parse_u32(dec(n as nat)) == Some(n),
{
    lemma_dec_digits(n as nat);
    assert(is_digit(dec(n as nat)[0]));
    assert(unsigned_body(dec(n as nat)) == dec(n as nat));
}

/// The duration scan carries a run of digits into its buffer.
proof fn lemma_scan_digits(d: Seq<char>, tail: Seq<char>, buf: Seq<char>, total: u32, hm: bool)
    requires
        all_digits(d),
    ensures
        time_scan(d + tail, buf, total, hm) == time_scan(tail, buf + d, total, hm),
    decreases d.len(),
{
    if d.len() == 0 {
        assert(d + tail == tail);
        assert(buf + d == buf);
    } else {
        let r = d.skip(1);
        assert forall|i: int| 0 <= i < r.len() implies is_digit(#[trigger] r[i]) by {
            assert(r[i] == d[i + 1]);
        }
        lemma_scan_digits(r, tail, buf.push(d[0]), total, hm);
        assert((d + tail)[0] == d[0]);
        assert((d + tail).skip(1) == r + tail);
        assert(buf.push(d[0]) + r == buf + d);
    }
}

/// The time part `<h>H<m>M` scans to `h * 60 + m` minutes.
proof fn lemma_scan_hours_minutes(h: u32, m: u32)
    requires
        h * 60 + m <= u32::MAX,
    ensures
        time_scan(dec(h as nat) + ("H"@ + dec(m as nat) + "M"@), seq![], 0, false) == Some((h * 60 + m) as u32),
{
    reveal_strlit("H");
    reveal_strlit("M");
    let dh = dec(h as nat);
    let dm = dec(m as nat);
    lemma_dec_digits(h as nat);
    lemma_dec_digits(m as nat);
    let t1 = "H"@ + dm + "M"@;
    lemma_scan_digits(dh, t1, seq![], 0, false);
    assert(Seq::<char>::empty() + dh == dh);
    lemma_parse_dec(h);
    assert(t1[0] == 'H');
    assert(t1.skip(1) == dm + "M"@);
    assert(sat_mul(h, 60) == h * 60);
    assert(sat_add(0, sat_mul(h, 60)) == h * 60);
    lemma_scan_digits(dm, "M"@, seq![], (h * 60) as u32, true);
    assert(Seq::<char>::empty() + dm == dm);
    lemma_parse_dec(m);
    assert("M"@[0] == 'M');
    assert("M"@.skip(1) == Seq::<char>::empty());
    assert(sat_add((h * 60) as u32, m) == h * 60 + m);
    assert(time_scan(Seq::<char>::empty(), seq![], (h * 60 + m) as u32, true) == Some((h * 60 + m) as u32));
    assert(time_scan("M"@, dm, (h * 60) as u32, true) == time_scan(Seq::<char>::empty(), seq![], (h * 60 + m) as u32, true));
    assert(time_scan(dm + "M"@, seq![], (h * 60) as u32, true) == time_scan("M"@, dm, (h * 60) as u32, true));
    assert(time_scan(t1, dh, 0, false) == time_scan(dm + "M"@, seq![], (h * 60) as u32, true));
}

/// `s` with the unit letters `h` and `m` in upper case.
pub open spec fn upper_units(s: Seq<char>) -> Seq<char> {
    Seq::new(s.len(), |i: int| if s[i] == 'h' { 'H' } else if s[i] == 'm' { 'M' } else { s[i] })
}

proof fn lemma_upper_units_digits(n: nat)
    ensures
        upper_units(dec(n)) == dec(n),
{
    lemma_dec_digits(n);
    assert forall|i: int| 0 <= i < dec(n).len() implies #[trigger] upper_units(dec(n))[i] == dec(n)[i] by {
        assert(is_digit(dec(n)[i]));
    }
    assert(upper_units(dec(n)) =~= dec(n));
}

/// `"PT"` followed by a time part reads as that time part's scan.
proof fn lemma_pt_prefix(tail: Seq<char>)
    requires
        tail.len() == 0 || !is_ws(tail.last()),
    ensures
        spec_duration_minutes("PT"@ + tail) == time_scan(tail, seq![], 0, false),
{
    reveal_strlit("PT");
    let s0 = "PT"@ + tail;
    assert(s0[0] == 'P');
    assert(s0.last() == (if tail.len() == 0 { 'T' } else { tail.last() }));
    assert(trim_ws(s0) == s0);
    let rest = s0.skip(1);
    assert(rest == seq!['T'] + tail);
    lemma_find_char(rest, 'T');
    assert(find_char(rest, 'T') == Some(0int));
    lemma_find_char(rest.take(0), 'D');
    assert(rest.skip(1) == tail);
}

/// The time part `<n><u>` (`u` being `H` or `M`) scans to `n` hours or
/// minutes.
proof fn lemma_scan_one_unit(n: u32, u: char)
    requires
        u == 'H' || u == 'M',
    ensures
        time_scan(dec(n as nat) + seq![u], seq![], 0, false) == Some(if u == 'H' { sat_mul(n, 60) } else { n }),
{
    let dn = dec(n as nat);
    lemma_dec_digits(n as nat);
    lemma_scan_digits(dn, seq![u], seq![], 0, false);
    assert(Seq::<char>::empty() + dn == dn);
    lemma_parse_dec(n);
    assert(seq![u][0] == u);
    assert(seq![u].skip(1) == Seq::<char>::empty());
    let add = if u == 'H' { sat_mul(n, 60) } else { n };
    assert(sat_add(0, add) == add);
    assert(time_scan(seq![u], dn, 0, false) == time_scan(Seq::<char>::empty(), seq![], add, true));
}

/// Formatting a duration loses no minutes: the compact form, with its
/// unit letters in upper case after `PT`, reads back as the same number of
/// minutes, for every count (`0` → `` → `PT`, `45` → `45m`, `120` → `2h`,
/// `75` → `1h15m`).
pub proof fn law_duration_round_trip(minutes: u32)
    ensures
        spec_duration_minutes("PT"@ + upper_units(spec_format_duration(minutes))) == Some(minutes),
{
    reveal_strlit("H");
    reveal_strlit("M");
    let h = (minutes / 60) as u32;
    let m = (minutes % 60) as u32;
    let dh = dec(h as nat);
    let dm = dec(m as nat);
    lemma_upper_units_digits(h as nat);
    lemma_upper_units_digits(m as nat);
    lemma_dec_digits(h as nat);
    lemma_dec_digits(m as nat);
    assert(h * 60 + m == minutes);
    assert(sat_mul(h, 60) == h * 60);
    let f = spec_format_duration(minutes);
    if h == 0 && m == 0 {
        assert(upper_units(f) =~= Seq::<char>::empty());
        assert("PT"@ + Seq::<char>::empty() == "PT"@);
        lemma_pt_prefix(Seq::<char>::empty());
    } else if h == 0 {
        let t = dm + seq!['M'];
        assert(upper_units(f) =~= t) by {
            assert forall|i: int| 0 <= i < dm.len() implies f[i] == dm[i] && is_digit(f[i]) by {
                assert(is_digit(dm[i]));
            }
        }
        lemma_pt_prefix(t);
        lemma_scan_one_unit(m, 'M');
    } else if m == 0 {
        let t = dh + seq!['H'];
        assert(upper_units(f) =~= t) by {
            assert forall|i: int| 0 <= i < dh.len() implies f[i] == dh[i] && is_digit(f[i]) by {
                assert(is_digit(dh[i]));
            }
        }
        lemma_pt_prefix(t);
        lemma_scan_one_unit(h, 'H');
    } else {
        let t = dh + ("H"@ + dm + "M"@);
        assert(upper_units(f) =~= t) by {
            assert(f == dh + seq!['h'] + dm + seq!['m']);
            assert forall|i: int| 0 <= i < f.len() implies #[trigger] upper_units(f)[i] == t[i] by {
                if i < dh.len() {
                    assert(is_digit(dh[i]));
                } else if i == dh.len() {
                } else if i < dh.len() + 1 + dm.len() {
                    assert(is_digit(dm[i - dh.len() - 1]));
                }
            }
        }
        lemma_pt_prefix(t);
        lemma_scan_hours_minutes(h, m);
    }
}

/// Compact duration: `75` → `1h15m`, `45` → `45m`, `120` → `2h`, `0` → ``.
pub open spec fn spec_format_duration(minutes: u32) -> Seq<char> {
    let h = minutes / 60;
    let m = minutes % 60;
    if h == 0 && m == 0 {
        seq![]
    } else if h == 0 {
        dec(m as nat) + seq!['m']
    } else if m == 0 {
        dec(h as nat) + seq!['h']
    } else {
        dec(h as nat) + seq!['h'] + dec(m as nat) + seq!['m']
    }
}

pub fn format_duration(minutes: u32) -> (r: String)
    ensures
        r@ == spec_format_duration(minutes),
{
    let h = minutes / 60;
    let m = minutes % 60;
    let mut v: Vec<char> = Vec::new();
    if h == 0 && m == 0 {
    } else if h == 0 {
        push_dec(&mut v, m as u64);
        v.push('m');
    } else if m == 0 {
        push_dec(&mut v, h as u64);
        v.push('h');
    } else {
        push_dec(&mut v, h as u64);
        v.push('h');
        push_dec(&mut v, m as u64);
        v.push('m');
    }
    string_from_chars(&v)
}

} // verus!
