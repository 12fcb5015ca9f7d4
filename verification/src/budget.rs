//! ActualBudget month data → the budget panel's envelopes: amounts in whole
//! euros, income groups skipped, envelope class from the group's name (or,
//! failing that, this month's transaction count), largest budget first.

use vstd::prelude::*;
use crate::clock::{spec_month_label, LocalStamp};
use crate::data::{BudgetCat, BudgetClass, BudgetData};
use crate::text::{chars_eq, chars_of, string_from_chars, string_of};

verus! {

/// One category of the month aggregate, amounts in cents as Actual
/// reports them (0 where the JSON has no number).
pub struct RawCategory {
    pub id: Option<String>,
    pub name: Option<String>,
    /// Name of the category's group.
    pub group: Option<String>,
    /// The group holds income.
    pub income: bool,
    pub spent_cents: i64,
    pub budgeted_cents: i64,
    pub balance_cents: i64,
}

/// Group-name fragments that classify an envelope, matched as
/// case-insensitive substrings of its group's name.
pub struct GroupLists {
    pub fixed: Vec<String>,
    pub variable: Vec<String>,
    pub savings: Vec<String>,
}

/// How envelopes are classified: this month's transaction rows (`None`
/// when they could not be read) and the fixed, variable and savings
/// fragments.
pub type ClassCtx = (Option<Seq<Option<String>>>, Seq<String>, Seq<String>, Seq<String>);

pub open spec fn ctx_of(rows: Option<Vec<Option<String>>>, l: GroupLists) -> ClassCtx {
    (match rows { Some(v) => Some(v@), None => None }, l.fixed@, l.variable@, l.savings@)
}

/// `str::to_lowercase` (std) of `s`.
pub uninterp spec fn spec_to_lowercase(s: Seq<char>) -> Seq<char>;

/// `str::to_lowercase` (std). Claimed: a function of the argument.
#[verifier::external_body]
fn to_lowercase(s: &str) -> (r: String)
    ensures
        r@ == spec_to_lowercase(s@),
{
    s.to_lowercase()
}

/// Lowercased fragment `f` occurs in the lowercased group name `g`.
pub open spec fn fragment_hit(g: Seq<char>, f: String) -> bool {
    let lf = spec_to_lowercase(f@);
    lf.len() > 0 && crate::agenda::find_sub(g, lf) is Some
}

/// Some fragment of `l` occurs in `g`.
pub open spec fn any_hit(g: Seq<char>, l: Seq<String>) -> bool {
    exists|i: int| 0 <= i < l.len() && #[trigger] fragment_hit(g, l[i])
}

/// The class the group's name gives: fixed, then variable, then savings
/// fragments are tried; `None` when none matches or there is no group.
pub open spec fn group_class(group: Option<String>, ctx: ClassCtx) -> Option<BudgetClass> {
    match group {
        None => None,
        Some(g) => {
            let lg = spec_to_lowercase(g@);
            if any_hit(lg, ctx.1) {
                Some(BudgetClass::Fixed)
            } else if any_hit(lg, ctx.2) {
                Some(BudgetClass::Variable)
            } else if any_hit(lg, ctx.3) {
                Some(BudgetClass::Savings)
            } else {
                None
            }
        },
    }
}

/// `cents / 100` rounded half away from zero.
pub open spec fn round_cents(c: int) -> int {
    if c >= 0 { (c + 50) / 100 } else { -((-c + 50) / 100) }
}

/// Saturating conversion to `u32` (as a float-to-int `as` cast does).
pub open spec fn sat_u32(v: int) -> u32 {
    if v < 0 { 0 } else if v > u32::MAX { u32::MAX } else { v as u32 }
}

/// Saturating conversion to `i32`.
pub open spec fn sat_i32(v: int) -> i32 {
    if v < i32::MIN { i32::MIN } else if v > i32::MAX { i32::MAX } else { v as i32 }
}

pub open spec fn abs_int(v: int) -> int {
    if v < 0 { -v } else { v }
}

/// Whole euros spent (the magnitude of the spent amount).
pub open spec fn spent_of(c: RawCategory) -> u32 {
    sat_u32(round_cents(abs_int(c.spent_cents as int)))
}

/// Whole euros budgeted.
pub open spec fn cap_of(c: RawCategory) -> u32 {
    sat_u32(round_cents(c.budgeted_cents as int))
}

/// Whole-euro envelope balance.
pub open spec fn balance_of(c: RawCategory) -> i32 {
    sat_i32(round_cents(c.balance_cents as int))
}

/// Category id, empty when missing.
pub open spec fn id_of(c: RawCategory) -> Seq<char> {
    match c.id {
        Some(s) => s@,
        None => seq![],
    }
}

/// Number of transaction rows booked to category `id`.
pub open spec fn count_rows(rows: Seq<Option<String>>, id: Seq<char>) -> nat
    decreases rows.len(),
{
    if rows.len() == 0 {
        0
    } else {
        count_rows(rows.drop_last(), id) + match rows.last() {
            Some(s) => if s@ == id { 1nat } else { 0nat },
            None => 0nat,
        }
    }
}

/// Few transactions (at most two this month) mean a lump bill.
pub open spec fn class_of(count: nat) -> BudgetClass {
    if count <= 2 { BudgetClass::Fixed } else { BudgetClass::Variable }
}

/// An envelope is listed when it is not income and has a budget or
/// spending.
pub open spec fn listed(c: RawCategory) -> bool {
    !c.income && (cap_of(c) > 0 || spent_of(c) > 0)
}

/// Transactions booked to the category this month (none when the rows
/// could not be read).
pub open spec fn txns_of(c: RawCategory, ctx: ClassCtx) -> u32 {
    match ctx.0 {
        Some(rows) => (count_rows(rows, id_of(c)) % 0x1_0000_0000) as u32,
        None => 0,
    }
}

/// The envelope's class: by its group's name; failing that by its count
/// of transactions; variable when the rows could not be read.
pub open spec fn envelope_class(c: RawCategory, ctx: ClassCtx) -> BudgetClass {
    match group_class(c.group, ctx) {
        Some(k) => k,
        None => match ctx.0 {
            Some(_) => class_of(txns_of(c, ctx) as nat),
            None => BudgetClass::Variable,
        },
    }
}

/// Plain-value form of an envelope: label, spent, cap, balance, txns, class.
pub type CatView = (Seq<char>, u32, u32, i32, u32, BudgetClass);

pub open spec fn cat_view(c: BudgetCat) -> CatView {
    (c.label@, c.spent, c.cap, c.balance, c.txns, c.class)
}

/// The envelope for category `c` given the transaction rows.
pub open spec fn envelope_of(c: RawCategory, ctx: ClassCtx) -> CatView {
    (
        match c.name {
            Some(s) => s@,
            None => "?"@,
        },
        spent_of(c),
        cap_of(c),
        balance_of(c),
        txns_of(c, ctx),
        envelope_class(c, ctx),
    )
}

/// Listed envelopes in feed order.
pub open spec fn listed_envelopes(cats: Seq<RawCategory>, ctx: ClassCtx) -> Seq<CatView>
    decreases cats.len(),
{
    if cats.len() == 0 {
        seq![]
    } else {
        let init = listed_envelopes(cats.drop_last(), ctx);
        if listed(cats.last()) {
            init.push(envelope_of(cats.last(), ctx))
        } else {
            init
        }
    }
}

/// Inserts `x` after every element whose cap is at least `x`'s.
pub open spec fn insert_by_cap(s: Seq<CatView>, x: CatView) -> Seq<CatView>
    decreases s.len(),
{
    if s.len() == 0 {
        seq![x]
    } else if s.last().2 >= x.2 {
        s.push(x)
    } else {
        insert_by_cap(s.drop_last(), x).push(s.last())
    }
}

/// Stable sort by cap, largest first.
pub open spec fn sort_by_cap(s: Seq<CatView>) -> Seq<CatView>
    decreases s.len(),
{
    if s.len() == 0 {
        seq![]
    } else {
        insert_by_cap(sort_by_cap(s.drop_last()), s.last())
    }
}

/// Sum of a field over the listed envelopes, with 32-bit wrap-around.
pub open spec fn total_spent(cats: Seq<CatView>) -> u32
    decreases cats.len(),
{
    if cats.len() == 0 {
        0
    } else {
        ((total_spent(cats.drop_last()) + cats.last().1) % 0x1_0000_0000) as u32
    }
}

pub open spec fn total_cap(cats: Seq<CatView>) -> u32
    decreases cats.len(),
{
    if cats.len() == 0 {
        0
    } else {
        ((total_cap(cats.drop_last()) + cats.last().2) % 0x1_0000_0000) as u32
    }
}

fn round_cents_exec(c: i64) -> (r: i128)
    ensures
        r == round_cents(c as int),
{
    let v = c as i128;
    if v >= 0 { (v + 50) / 100 } else { -((-v + 50) / 100) }
}

fn to_u32_sat(v: i128) -> (r: u32)
    ensures
        r == sat_u32(v as int),
{
    if v < 0 { 0 } else if v > 0xffff_ffff { 0xffff_ffff } else { v as u32 }
}

fn to_i32_sat(v: i128) -> (r: i32)
    ensures
        r == sat_i32(v as int),
{
    if v < -2147483648 { i32::MIN } else if v > 2147483647 { i32::MAX } else { v as i32 }
}

/// Number of rows whose category is `id` (32-bit wrap-around).
fn count_for(rows: &Vec<Option<String>>, id: &Vec<char>) -> (r: u32)
    ensures
        r == count_rows(rows@, id@) % 0x1_0000_0000,
{
    let mut n: u32 = 0;
    let mut i: usize = 0;
    while i < rows.len()
        invariant
            i <= rows@.len(),
            n == count_rows(rows@.take(i as int), id@) % 0x1_0000_0000,
        decreases rows.len() - i,
    {
        assert(rows@.take(i + 1).drop_last() == rows@.take(i as int));
        let hit = match &rows[i] {
            Some(s) => chars_eq(&chars_of(s.as_str()), id),
            None => false,
        };
        if hit {
            n = n.wrapping_add(1);
        }
        i += 1;
    }
    assert(rows@.take(rows@.len() as int) == rows@);
    n
}

fn any_hit_exec(g: &Vec<char>, l: &Vec<String>) -> (r: bool)
    ensures
        r == any_hit(g@, l@),
{
    let mut i: usize = 0;
    while i < l.len()
        invariant
            i <= l@.len(),
            forall|k: int| 0 <= k < i ==> !#[trigger] fragment_hit(g@, l@[k]),
        decreases l.len() - i,
    {
        let lf = chars_of(to_lowercase(l[i].as_str()).as_str());
        if lf.len() > 0 {
            assert(g@.skip(0) == g@);
            if crate::agenda::find_sub_from(g, 0, &lf).is_some() {
                assert(fragment_hit(g@, l@[i as int]));
                return true;
            }
        }
        i += 1;
    }
    false
}

fn group_class_exec(group: &Option<String>, lists: &GroupLists) -> (r: Option<BudgetClass>)
    ensures
        r == group_class(*group, ctx_of(None, *lists)),
{
    match group {
        None => None,
        Some(g) => {
            let lg = chars_of(to_lowercase(g.as_str()).as_str());
            if any_hit_exec(&lg, &lists.fixed) {
                Some(BudgetClass::Fixed)
            } else if any_hit_exec(&lg, &lists.variable) {
                Some(BudgetClass::Variable)
            } else if any_hit_exec(&lg, &lists.savings) {
                Some(BudgetClass::Savings)
            } else {
                None
            }
        },
    }
}

/// The envelope for one category.
pub fn envelope(c: &RawCategory, rows: &Option<Vec<Option<String>>>, lists: &GroupLists) -> (r: BudgetCat)
    ensures
        cat_view(r) == envelope_of(*c, ctx_of(*rows, *lists)),
{
    proof {
        reveal_strlit("?");
    }
    let label = match &c.name {
        Some(s) => string_from_chars(&chars_of(s.as_str())),
        None => string_of("?"),
    };
    let id: Vec<char> = match &c.id {
        Some(s) => chars_of(s.as_str()),
        None => Vec::new(),
    };
    let count: u32 = match rows {
        Some(rs) => count_for(rs, &id),
        None => 0,
    };
    let by_group = group_class_exec(&c.group, lists);
    let class = match by_group {
        Some(k) => k,
        None => match rows {
            Some(_) => if count <= 2 { BudgetClass::Fixed } else { BudgetClass::Variable },
            None => BudgetClass::Variable,
        },
    };
    let spent_abs: i128 = if c.spent_cents < 0 { -(c.spent_cents as i128) } else { c.spent_cents as i128 };
    let spent = to_u32_sat(if spent_abs >= 0 { (spent_abs + 50) / 100 } else { 0 });
    let cap = to_u32_sat(round_cents_exec(c.budgeted_cents));
    let balance = to_i32_sat(round_cents_exec(c.balance_cents));
    BudgetCat {
        label,
        spent,
        cap,
        balance,
        txns: count,
        class,
    }
}

proof fn lemma_insert_len(s: Seq<CatView>, x: CatView)
    ensures
        insert_by_cap(s, x).len() == s.len() + 1,
    decreases s.len(),
{
    if s.len() > 0 && s.last().2 < x.2 {
        lemma_insert_len(s.drop_last(), x);
    }
}

/// Envelopes in order of cap, largest first.
pub open spec fn by_cap_desc(s: Seq<CatView>) -> bool {
    forall|i: int, j: int| #![trigger s[i], s[j]] 0 <= i < j < s.len() ==> s[i].2 >= s[j].2
}

proof fn lemma_insert_by_cap(t: Seq<CatView>, x: CatView)
    requires
        by_cap_desc(t),
    ensures
        by_cap_desc(insert_by_cap(t, x)),
        insert_by_cap(t, x).to_multiset() =~= t.to_multiset().insert(x),
        forall|k: int|
            0 <= k < insert_by_cap(t, x).len() ==> #[trigger] insert_by_cap(t, x)[k] == x || t.contains(
                insert_by_cap(t, x)[k],
            ),
    decreases t.len(),
{
    broadcast use vstd::seq_lib::group_to_multiset_ensures;

    lemma_insert_len(t, x);
    let r = insert_by_cap(t, x);
    if t.len() == 0 {
        assert(r == seq![x]);
        assert(seq![x] == Seq::<CatView>::empty().push(x));
        assert(t == Seq::<CatView>::empty());
    } else if t.last().2 >= x.2 {
        assert(r == t.push(x));
        assert forall|k: int| 0 <= k < r.len() implies #[trigger] r[k] == x || t.contains(r[k]) by {
            if k < t.len() {
                assert(r[k] == t[k]);
            }
        }
        assert forall|i: int, j: int| #![trigger r[i], r[j]] 0 <= i < j < r.len() implies r[i].2 >= r[j].2 by {
            if j == t.len() {
                if i < t.len() - 1 {
                    assert(t[i].2 >= t[t.len() - 1].2);
                }
            }
        }
    } else {
        let u = t.drop_last();
        let last = t.last();
        assert forall|i: int, j: int| #![trigger u[i], u[j]] 0 <= i < j < u.len() implies u[i].2 >= u[j].2 by {
            assert(t[i] == u[i] && t[j] == u[j]);
        }
        lemma_insert_by_cap(u, x);
        let q = insert_by_cap(u, x);
        assert(r == q.push(last));
        assert(t == u.push(last));
        assert forall|k: int| 0 <= k < r.len() implies #[trigger] r[k] == x || t.contains(r[k]) by {
            if k < q.len() {
                assert(r[k] == q[k]);
                if q[k] != x {
                    assert(u.contains(q[k]));
                    let m = choose|m: int| 0 <= m < u.len() && u[m] == q[k];
                    assert(t[m] == q[k]);
                }
            } else {
                assert(r[k] == t[t.len() - 1]);
            }
        }
        assert forall|i: int, j: int| #![trigger r[i], r[j]] 0 <= i < j < r.len() implies r[i].2 >= r[j].2 by {
            if j == q.len() {
                assert(r[i] == q[i]);
                if q[i] != x {
                    assert(u.contains(q[i]));
                    let m = choose|m: int| 0 <= m < u.len() && u[m] == q[i];
                    assert(t[m] == u[m]);
                    assert(t[m].2 >= t[t.len() - 1].2);
                }
            } else {
                assert(r[i] == q[i] && r[j] == q[j]);
            }
        }
        assert(r.to_multiset() =~= q.to_multiset().insert(last));
        assert(t.to_multiset() =~= u.to_multiset().insert(last));
    }
}

/// Sorting the envelopes keeps every one of them, each as often as it
/// occurs, and orders them by cap, largest first.
pub proof fn law_sort_by_cap(s: Seq<CatView>)
    ensures
        sort_by_cap(s).to_multiset() =~= s.to_multiset(),
        sort_by_cap(s).len() == s.len(),
        by_cap_desc(sort_by_cap(s)),
    decreases s.len(),
{
    broadcast use vstd::seq_lib::group_to_multiset_ensures;

    if s.len() > 0 {
        let u = s.drop_last();
        law_sort_by_cap(u);
        lemma_insert_by_cap(sort_by_cap(u), s.last());
        lemma_insert_len(sort_by_cap(u), s.last());
        assert(s == u.push(s.last()));
        assert(s.to_multiset() =~= u.to_multiset().insert(s.last()));
    } else {
        assert(sort_by_cap(s) == Seq::<CatView>::empty());
    }
}

/// Inserts `x` into `v` (sorted by cap, largest first) after every
/// envelope whose cap is at least `x`'s.
fn insert_cat(v: &mut Vec<BudgetCat>, x: BudgetCat)
    ensures
        final(v)@.len() == old(v)@.len() + 1,
        forall|k: int|
            0 <= k < final(v)@.len() ==> cat_view(#[trigger] final(v)@[k]) == insert_by_cap(
                old(v)@.map_values(|c: BudgetCat| cat_view(c)),
                cat_view(x),
            )[k],
{
    let ghost s = v@.map_values(|c: BudgetCat| cat_view(c));
    let mut pos = v.len();
    assert(s.take(pos as int) == s);
    assert(s.skip(pos as int) == Seq::<CatView>::empty());
    assert(insert_by_cap(s, cat_view(x)) + Seq::<CatView>::empty() == insert_by_cap(s, cat_view(x)));
    while pos > 0 && v[pos - 1].cap < x.cap
        invariant
            pos <= v@.len(),
            v@ == old(v)@,
            s == v@.map_values(|c: BudgetCat| cat_view(c)),
            insert_by_cap(s, cat_view(x)) == insert_by_cap(s.take(pos as int), cat_view(x)) + s.skip(pos as int),
        decreases pos,
    {
        let ghost t = s.take(pos as int);
        assert(t.last() == s[pos - 1]);
        assert(t.drop_last() == s.take(pos - 1));
        assert(s.skip(pos - 1) == seq![s[pos - 1]] + s.skip(pos as int));
        assert(insert_by_cap(t, cat_view(x)) == insert_by_cap(s.take(pos - 1), cat_view(x)).push(s[pos - 1]));
        assert(insert_by_cap(s.take(pos - 1), cat_view(x)).push(s[pos - 1]) + s.skip(pos as int) == insert_by_cap(s.take(pos - 1), cat_view(x)) + s.skip(pos - 1));
        pos -= 1;
    }
    proof {
        let t = s.take(pos as int);
        if pos > 0 {
            assert(t.last() == s[pos - 1]);
            assert(insert_by_cap(t, cat_view(x)) == t.push(cat_view(x)));
        } else {
            assert(insert_by_cap(t, cat_view(x)) == seq![cat_view(x)]);
            assert(t.push(cat_view(x)) == seq![cat_view(x)]);
        }
    }
    let ghost xv = cat_view(x);
    v.insert(pos, x);
    assert forall|k: int| 0 <= k < v@.len() implies cat_view(#[trigger] v@[k]) == insert_by_cap(s, xv)[k] by {
        let t = s.take(pos as int);
        assert(insert_by_cap(s, xv) == t.push(xv) + s.skip(pos as int));
        if k < pos {
            assert(v@[k] == old(v)@[k]);
        } else if k > pos {
            assert(v@[k] == old(v)@[k - 1]);
        }
    }
}

proof fn lemma_listed_append(a: Seq<RawCategory>, b: Seq<RawCategory>, ctx: ClassCtx)
    ensures
        listed_envelopes(a + b, ctx) == listed_envelopes(a, ctx) + listed_envelopes(b, ctx),
    decreases b.len(),
{
    if b.len() == 0 {
        assert(a + b == a);
        assert(listed_envelopes(a, ctx) + Seq::<CatView>::empty() == listed_envelopes(a, ctx));
    } else {
        let b1 = b.drop_last();
        lemma_listed_append(a, b1, ctx);
        assert((a + b).drop_last() == a + b1);
        assert((a + b).last() == b.last());
        if listed(b.last()) {
            assert((listed_envelopes(a, ctx) + listed_envelopes(b1, ctx)).push(envelope_of(b.last(), ctx))
                == listed_envelopes(a, ctx) + listed_envelopes(b1, ctx).push(envelope_of(b.last(), ctx)));
        }
    }
}

proof fn lemma_total_spent_append(s: Seq<CatView>, t: Seq<CatView>)
    ensures
        total_spent(s + t) == (total_spent(s) + total_spent(t)) % 0x1_0000_0000,
    decreases t.len(),
{
    if t.len() == 0 {
        assert(s + t == s);
    } else {
        let t1 = t.drop_last();
        lemma_total_spent_append(s, t1);
        assert((s + t).drop_last() == s + t1);
        assert((s + t).last() == t.last());
        let ts = total_spent(s) as int;
        let tt1 = total_spent(t1) as int;
        let x = t.last().1 as int;
        vstd::arithmetic::div_mod::lemma_add_mod_noop_right(x, ts + tt1, 0x1_0000_0000);
        vstd::arithmetic::div_mod::lemma_add_mod_noop_right(ts, tt1 + x, 0x1_0000_0000);
        assert(x + (ts + tt1) == ts + (tt1 + x));
    }
}

proof fn lemma_total_cap_append(s: Seq<CatView>, t: Seq<CatView>)
    ensures
        total_cap(s + t) == (total_cap(s) + total_cap(t)) % 0x1_0000_0000,
    decreases t.len(),
{
    if t.len() == 0 {
        assert(s + t == s);
    } else {
        let t1 = t.drop_last();
        lemma_total_cap_append(s, t1);
        assert((s + t).drop_last() == s + t1);
        assert((s + t).last() == t.last());
        let ts = total_cap(s) as int;
        let tt1 = total_cap(t1) as int;
        let x = t.last().2 as int;
        vstd::arithmetic::div_mod::lemma_add_mod_noop_right(x, ts + tt1, 0x1_0000_0000);
        vstd::arithmetic::div_mod::lemma_add_mod_noop_right(ts, tt1 + x, 0x1_0000_0000);
        assert(x + (ts + tt1) == ts + (tt1 + x));
    }
}

/// `listed_envelopes` of `cats` split around its `i`-th category.
proof fn lemma_listed_split(cats: Seq<RawCategory>, ctx: ClassCtx, i: int)
    requires
        0 <= i < cats.len(),
    ensures
        listed_envelopes(cats, ctx) == listed_envelopes(cats.take(i), ctx) + listed_envelopes(seq![cats[i]], ctx)
            + listed_envelopes(cats.skip(i + 1), ctx),
        listed_envelopes(cats.remove(i), ctx) == listed_envelopes(cats.take(i), ctx) + listed_envelopes(cats.skip(i + 1), ctx),
        listed_envelopes(seq![cats[i]], ctx) == if listed(cats[i]) { seq![envelope_of(cats[i], ctx)] } else { Seq::<CatView>::empty() },
{
    let c = cats[i];
    let pre = cats.take(i);
    let post = cats.skip(i + 1);
    assert(cats == pre + seq![c] + post);
    assert(cats.remove(i) == pre + post);
    lemma_listed_append(pre + seq![c], post, ctx);
    lemma_listed_append(pre, seq![c], ctx);
    lemma_listed_append(pre, post, ctx);
    assert(seq![c].drop_last() == Seq::<RawCategory>::empty());
    assert(seq![c].last() == c);
    assert(listed_envelopes(Seq::<RawCategory>::empty(), ctx) == Seq::<CatView>::empty());
    assert(Seq::<CatView>::empty().push(envelope_of(c, ctx)) =~= seq![envelope_of(c, ctx)]);
}

/// The spent total over `lp + [e] + lq` is that over `lp + lq` plus `e`'s.
proof fn lemma_spent_insert(lp: Seq<CatView>, e: CatView, lq: Seq<CatView>)
    ensures
        total_spent(lp + seq![e] + lq) == (total_spent(lp + lq) + e.1) % 0x1_0000_0000,
{
    lemma_total_spent_append(lp + seq![e], lq);
    lemma_total_spent_append(lp, seq![e]);
    lemma_total_spent_append(lp, lq);
    assert(seq![e].drop_last() == Seq::<CatView>::empty());
    assert(seq![e].last() == e);
    assert(total_spent(Seq::<CatView>::empty()) == 0);
    assert(total_spent(seq![e]) == e.1);
    let m = 0x1_0000_0000int;
    let a = total_spent(lp) as int;
    let b = total_spent(lq) as int;
    vstd::arithmetic::div_mod::lemma_add_mod_noop_right(b, a + e.1, m);
    vstd::arithmetic::div_mod::lemma_add_mod_noop_right(e.1 as int, a + b, m);
    assert(b + (a + e.1) == e.1 + (a + b));
}

/// The budget total over `lp + [e] + lq` is that over `lp + lq` plus `e`'s.
proof fn lemma_cap_insert(lp: Seq<CatView>, e: CatView, lq: Seq<CatView>)
    ensures
        total_cap(lp + seq![e] + lq) == (total_cap(lp + lq) + e.2) % 0x1_0000_0000,
{
    lemma_total_cap_append(lp + seq![e], lq);
    lemma_total_cap_append(lp, seq![e]);
    lemma_total_cap_append(lp, lq);
    assert(seq![e].drop_last() == Seq::<CatView>::empty());
    assert(seq![e].last() == e);
    assert(total_cap(Seq::<CatView>::empty()) == 0);
    assert(total_cap(seq![e]) == e.2);
    let m = 0x1_0000_0000int;
    let a = total_cap(lp) as int;
    let b = total_cap(lq) as int;
    vstd::arithmetic::div_mod::lemma_add_mod_noop_right(b, a + e.2, m);
    vstd::arithmetic::div_mod::lemma_add_mod_noop_right(e.2 as int, a + b, m);
    assert(b + (a + e.2) == e.2 + (a + b));
}

/// Nothing with money on it is dropped: a category outside the income
/// groups that spent, or was budgeted, a whole euro or more this month is
/// listed, whatever the other amount (none at all included), and its
/// spending and budget are counted in the month's totals: each is the
/// total without it plus its own amount (32-bit wrap-around).
pub proof fn law_spending_listed(cats: Seq<RawCategory>, ctx: ClassCtx, i: int)
    requires
        0 <= i < cats.len(),
        !cats[i].income,
        cats[i].spent_cents <= -50 || cats[i].spent_cents >= 50 || cats[i].budgeted_cents >= 50,
    ensures
        spent_of(cats[i]) > 0 || cap_of(cats[i]) > 0,
        listed_envelopes(cats, ctx).contains(envelope_of(cats[i], ctx)),
        sort_by_cap(listed_envelopes(cats, ctx)).contains(envelope_of(cats[i], ctx)),
        total_spent(listed_envelopes(cats, ctx))
            == (total_spent(listed_envelopes(cats.remove(i), ctx)) + spent_of(cats[i])) % 0x1_0000_0000,
        total_cap(listed_envelopes(cats, ctx))
            == (total_cap(listed_envelopes(cats.remove(i), ctx)) + cap_of(cats[i])) % 0x1_0000_0000,
{
    broadcast use vstd::seq_lib::group_to_multiset_ensures;

    let c = cats[i];
    assert(listed(c));
    lemma_listed_split(cats, ctx, i);
    let e = envelope_of(c, ctx);
    let lp = listed_envelopes(cats.take(i), ctx);
    let lq = listed_envelopes(cats.skip(i + 1), ctx);
    assert(listed_envelopes(cats, ctx) == lp + seq![e] + lq);
    assert((lp + seq![e] + lq)[lp.len() as int] == e);
    law_sort_by_cap(listed_envelopes(cats, ctx));
    assert(listed_envelopes(cats, ctx).to_multiset().count(e) > 0);
    lemma_spent_insert(lp, e, lq);
    lemma_cap_insert(lp, e, lq);
}

/// Income, and a category with neither a whole euro spent nor one
/// budgeted, never show: the envelopes are those of the categories
/// without it.
pub proof fn law_unlisted(cats: Seq<RawCategory>, ctx: ClassCtx, i: int)
    requires
        0 <= i < cats.len(),
        cats[i].income || (-50 < cats[i].spent_cents < 50 && cats[i].budgeted_cents < 50),
    ensures
        listed_envelopes(cats, ctx) == listed_envelopes(cats.remove(i), ctx),
{
    lemma_listed_split(cats, ctx, i);
    assert(!listed(cats[i]));
    let lp = listed_envelopes(cats.take(i), ctx);
    let lq = listed_envelopes(cats.skip(i + 1), ctx);
    assert(lp + Seq::<CatView>::empty() == lp);
}

/// The budget panel's data from the month's categories, this month's
/// transaction rows (category id of each transaction; `None` when they
/// could not be read) and the group-name fragments: listed envelopes
/// sorted by cap (largest first, ties in feed order), with wrapped 32-bit
/// totals and the month label of `now`.
pub fn budget_from(cats: &Vec<RawCategory>, rows: &Option<Vec<Option<String>>>, lists: &GroupLists, now: &LocalStamp) -> (r: BudgetData)
    ensures
        r.cats@.len() == sort_by_cap(listed_envelopes(cats@, ctx_of(*rows, *lists))).len(),
        forall|k: int| 0 <= k < r.cats@.len() ==> cat_view(#[trigger] r.cats@[k]) == sort_by_cap(listed_envelopes(cats@, ctx_of(*rows, *lists)))[k],
        r.spent == total_spent(listed_envelopes(cats@, ctx_of(*rows, *lists))),
        r.cap == total_cap(listed_envelopes(cats@, ctx_of(*rows, *lists))),
        r.month_label@ == spec_month_label(*now),
{
    let mut out: Vec<BudgetCat> = Vec::new();
    let mut spent: u32 = 0;
    let mut cap: u32 = 0;
    let mut i: usize = 0;
    while i < cats.len()
        invariant
            i <= cats@.len(),
            out@.len() == sort_by_cap(listed_envelopes(cats@.take(i as int), ctx_of(*rows, *lists))).len(),
            forall|k: int| 0 <= k < out@.len() ==> cat_view(#[trigger] out@[k]) == sort_by_cap(listed_envelopes(cats@.take(i as int), ctx_of(*rows, *lists)))[k],
            spent == total_spent(listed_envelopes(cats@.take(i as int), ctx_of(*rows, *lists))),
            cap == total_cap(listed_envelopes(cats@.take(i as int), ctx_of(*rows, *lists))),
        decreases cats.len() - i,
    {
        assert(cats@.take(i + 1).drop_last() == cats@.take(i as int));
        assert(cats@.take(i + 1).last() == cats@[i as int]);
        let e = envelope(&cats[i], rows, lists);
        let ghost init = listed_envelopes(cats@.take(i as int), ctx_of(*rows, *lists));
        if !cats[i].income && (e.cap > 0 || e.spent > 0) {
            let ghost before = out@.map_values(|c: BudgetCat| cat_view(c));
            assert(before =~= sort_by_cap(init));
            assert(listed_envelopes(cats@.take(i + 1), ctx_of(*rows, *lists)) == init.push(cat_view(e)));
            assert(init.push(cat_view(e)).drop_last() == init);
            assert(sort_by_cap(init.push(cat_view(e))) == insert_by_cap(sort_by_cap(init), cat_view(e)));
            proof {
                lemma_insert_len(sort_by_cap(init), cat_view(e));
            }
            spent = spent.wrapping_add(e.spent);
            cap = cap.wrapping_add(e.cap);
            insert_cat(&mut out, e);
        }
        i += 1;
    }
    assert(cats@.take(cats@.len() as int) == cats@);
    BudgetData { month_label: crate::clock::fmt_month_label(now), spent, cap, cats: out }
}

} // verus!
