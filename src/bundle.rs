//! Attribute tables, character bundles, their invariants, and the mutation
//! operator that keeps those invariants.
use crate::random::{gen_index, gen_ratio, sample_distinct};
use rand::rngs::StdRng;
use vstd::prelude::*;

verus! {

/// Attribute slots of a bundle.
pub const MIGHT: usize = 0;
pub const SPEED: usize = 1;
pub const KNOW: usize = 2;
pub const SANITY: usize = 3;

/// Bounds of the points budget: the sum of all 32 entries of a bundle.
pub const MIN_BUDGET: i32 = 145;
pub const MAX_BUDGET: i32 = 155;

/// Eight non-decreasing values in [1, 8] and the index of the baseline value.
#[derive(Clone, Copy, Debug)]
pub struct AttributeTable {
    pub values: [i32; 8],
    pub start: usize,
}

/// The four attribute tables of one character, in the order
/// Might, Speed, Know, Sanity.
#[derive(Clone, Copy, Debug)]
pub struct CharacterBundle {
    pub tables: [AttributeTable; 4],
}

pub open spec fn table_ok(t: AttributeTable) -> bool {
    let v = t.values;
    &&& forall|k: int| 0 <= k < 8 ==> 1 <= #[trigger] v[k] <= 8
    &&& v[0] <= v[1] && v[1] <= v[2] && v[2] <= v[3] && v[3] <= v[4]
    &&& v[4] <= v[5] && v[5] <= v[6] && v[6] <= v[7]
    &&& 2 <= t.start <= 4
}

/// The table's baseline value.
pub open spec fn start_value(t: AttributeTable) -> int {
    t.values[t.start as int] as int
}

pub open spec fn table_total(t: AttributeTable) -> int {
    let v = t.values;
    v[0] + v[1] + v[2] + v[3] + v[4] + v[5] + v[6] + v[7]
}

/// The points budget of a bundle.
pub open spec fn bundle_total(b: CharacterBundle) -> int {
    table_total(b.tables[0]) + table_total(b.tables[1]) + table_total(b.tables[2])
        + table_total(b.tables[3])
}

/// The sum of the four start indices.
pub open spec fn constitution(b: CharacterBundle) -> int {
    b.tables[0].start + b.tables[1].start + b.tables[2].start + b.tables[3].start
}

pub open spec fn start_value_sum(b: CharacterBundle) -> int {
    start_value(b.tables[0]) + start_value(b.tables[1]) + start_value(b.tables[2])
        + start_value(b.tables[3])
}

/// The least baseline value an attribute may have: 2 for Might, 3 otherwise.
pub open spec fn min_start_value(a: int) -> int {
    if a == MIGHT as int { 2 } else { 3 }
}

/// Every invariant a character bundle keeps at all times.
pub open spec fn bundle_ok(b: CharacterBundle) -> bool {
    &&& forall|a: int| 0 <= a < 4 ==> table_ok(#[trigger] b.tables[a])
    &&& 10 <= constitution(b) <= 11
    &&& start_value_sum(b) == 15
    &&& forall|a: int| 0 <= a < 4 ==> start_value(#[trigger] b.tables[a]) >= min_start_value(a)
    &&& MIN_BUDGET <= bundle_total(b) <= MAX_BUDGET
}

/// How far entry `k` of table `c` moved from `b0` to `b1`.
pub open spec fn value_change(b0: CharacterBundle, b1: CharacterBundle, c: int, k: int) -> int {
    b1.tables[c].values[k] - b0.tables[c].values[k]
}

/// Every start index but those of tables `p` and `q` stayed.
pub open spec fn starts_kept_but(b0: CharacterBundle, b1: CharacterBundle, p: int, q: int) -> bool {
    forall|c: int| 0 <= c < 4 && c != p && c != q ==> (#[trigger] b1.tables[c]).start == b0.tables[c].start
}

/// `b1` is at most one mutation away from `b0`: each entry moved by at most
/// 1, or 2 at the table's new start index, and at most two start indices
/// moved, by 1 each.
pub open spec fn within_one_mutation(b0: CharacterBundle, b1: CharacterBundle) -> bool {
    &&& forall|c: int| 0 <= c < 4 ==> -1 <= (#[trigger] b1.tables[c]).start - b0.tables[c].start <= 1
    &&& exists|p: int, q: int| #[trigger] starts_kept_but(b0, b1, p, q)
    &&& forall|c: int, k: int|
        0 <= c < 4 && 0 <= k < 8 ==> -2 <= #[trigger] value_change(b0, b1, c, k) <= 2 && (k
            != b1.tables[c].start ==> -1 <= value_change(b0, b1, c, k) <= 1)
}

/// The bundle every character starts from: the template 2,2,3,4,5,6,7,8 in
/// each table, Might starting at index 2 and the others at index 3.
pub open spec fn default_bundle_spec() -> CharacterBundle {
    let v = [2i32, 2, 3, 4, 5, 6, 7, 8];
    CharacterBundle {
        tables: [
            AttributeTable { values: v, start: 2 },
            AttributeTable { values: v, start: 3 },
            AttributeTable { values: v, start: 3 },
            AttributeTable { values: v, start: 3 },
        ],
    }
}

pub fn default_bundle() -> (r: CharacterBundle)
    ensures
        r == default_bundle_spec(),
        bundle_ok(r),
{
    let v = [2i32, 2, 3, 4, 5, 6, 7, 8];
    let r = CharacterBundle {
        tables: [
            AttributeTable { values: v, start: 2 },
            AttributeTable { values: v, start: 3 },
            AttributeTable { values: v, start: 3 },
            AttributeTable { values: v, start: 3 },
        ],
    };
    assert(forall|a: int| 0 <= a < 4 ==> table_ok(#[trigger] r.tables[a]));
    r
}


pub fn table_is_ok(t: &AttributeTable) -> (r: bool)
    ensures
        r == table_ok(*t),
{
    let mut k: usize = 0;
    while k < 8
        invariant
            k <= 8,
            forall|j: int| 0 <= j < k ==> 1 <= #[trigger] t.values[j] <= 8,
        decreases 8 - k,
    {
        if t.values[k] < 1 || t.values[k] > 8 {
            return false;
        }
        k += 1;
    }
    let v = &t.values;
    v[0] <= v[1] && v[1] <= v[2] && v[2] <= v[3] && v[3] <= v[4] && v[4] <= v[5] && v[5] <= v[6]
        && v[6] <= v[7] && 2 <= t.start && t.start <= 4
}

/// Sum of a table's eight entries.
fn table_sum(t: &AttributeTable) -> (r: i32)
    requires
        table_ok(*t),
    ensures
        r == table_total(*t),
{
    let v = &t.values;
    v[0] + v[1] + v[2] + v[3] + v[4] + v[5] + v[6] + v[7]
}

/// The points budget of a bundle whose tables are well formed.
fn bundle_sum(b: &CharacterBundle) -> (r: i32)
    requires
        forall|a: int| 0 <= a < 4 ==> table_ok(#[trigger] b.tables[a]),
    ensures
        r == bundle_total(*b),
{
    assert(table_ok(b.tables[0]) && table_ok(b.tables[1]) && table_ok(b.tables[2]) && table_ok(
        b.tables[3],
    ));
    table_sum(&b.tables[0]) + table_sum(&b.tables[1]) + table_sum(&b.tables[2]) + table_sum(
        &b.tables[3],
    )
}

/// Whether a bundle meets every bundle invariant.
pub fn bundle_is_ok(b: &CharacterBundle) -> (r: bool)
    ensures
        r == bundle_ok(*b),
{
    let mut a: usize = 0;
    while a < 4
        invariant
            a <= 4,
            forall|j: int| 0 <= j < a ==> table_ok(#[trigger] b.tables[j]),
        decreases 4 - a,
    {
        if !table_is_ok(&b.tables[a]) {
            return false;
        }
        a += 1;
    }
    let t = &b.tables;
    let con = t[0].start + t[1].start + t[2].start + t[3].start;
    let sv0 = t[0].values[t[0].start];
    let sv1 = t[1].values[t[1].start];
    let sv2 = t[2].values[t[2].start];
    let sv3 = t[3].values[t[3].start];
    let total = bundle_sum(b);
    let r = 10 <= con && con <= 11 && sv0 + sv1 + sv2 + sv3 == 15 && sv0 >= 2 && sv1 >= 3 && sv2
        >= 3 && sv3 >= 3 && MIN_BUDGET <= total && total <= MAX_BUDGET;
    assert(r ==> forall|j: int|
        0 <= j < 4 ==> start_value(#[trigger] b.tables[j]) >= min_start_value(j)) by {
        if r {
            assert forall|j: int| 0 <= j < 4 implies start_value(#[trigger] b.tables[j])
                >= min_start_value(j) by {
                if j == 0 {
                } else if j == 1 {
                } else if j == 2 {
                } else {
                }
            }
        }
    }
    assert(bundle_ok(*b) ==> r) by {
        if bundle_ok(*b) {
            assert(start_value(b.tables[0]) >= min_start_value(0));
            assert(start_value(b.tables[1]) >= min_start_value(1));
            assert(start_value(b.tables[2]) >= min_start_value(2));
            assert(start_value(b.tables[3]) >= min_start_value(3));
        }
    }
    r
}


/// A unit raise at position `i` of `t` is allowed, given the bundle's running
/// points budget `total`.
pub open spec fn can_raise(t: AttributeTable, i: int, total: int) -> bool {
    let v = t.values;
    &&& i != t.start
    &&& (i == 7 || v[i] < v[i + 1])
    &&& (i == 0 || v[i] <= v[i - 1] + 1)
    &&& total < MAX_BUDGET
    &&& (i != 0 || v[i] < 4)
    &&& v[i] < 8
}

/// A unit lowering at position `i` of `t` is allowed, given the bundle's
/// running points budget `total`.
pub open spec fn can_lower(t: AttributeTable, i: int, total: int) -> bool {
    let v = t.values;
    &&& i != t.start
    &&& (i == 0 || v[i] > v[i - 1])
    &&& (i == 7 || v[i] >= v[i + 1] - 1)
    &&& total > MIN_BUDGET
    &&& (i != 7 || v[i] > 5)
    &&& v[i] > 1
}

/// Which unit changes (raise, lower) are allowed at position `i` of `t`.
pub fn perturb_options(t: &AttributeTable, i: usize, total: i32) -> (r: (bool, bool))
    requires
        table_ok(*t),
        i < 8,
    ensures
        r.0 == can_raise(*t, i as int, total as int),
        r.1 == can_lower(*t, i as int, total as int),
{
    let v = &t.values;
    let up = i != t.start && (i == 7 || v[i] < v[i + 1]) && (i == 0 || v[i] <= v[i - 1] + 1)
        && total < MAX_BUDGET && (i != 0 || v[i] < 4) && v[i] < 8;
    let down = i != t.start && (i == 0 || v[i] > v[i - 1]) && (i == 7 || v[i] >= v[i + 1] - 1)
        && total > MIN_BUDGET && (i != 7 || v[i] > 5) && v[i] > 1;
    (up, down)
}

/// The change picked by the `k`-th of the options 0, +1 (when `up`) and
/// -1 (when `down`), listed in that order.
pub open spec fn option_delta(up: bool, down: bool, k: int) -> int {
    if k == 0 {
        0
    } else if k == 1 && up {
        1
    } else {
        -1
    }
}

pub fn pick_delta(up: bool, down: bool, k: usize) -> (r: i32)
    requires
        k < 1 + (if up { 1int } else { 0 }) + (if down { 1int } else { 0 }),
    ensures
        r == option_delta(up, down, k as int),
        r == 0 || (r == 1 && up) || (r == -1 && down),
{
    if k == 0 {
        0
    } else if k == 1 && up {
        1
    } else {
        -1
    }
}

/// Adds `delta` to entry `i` of table `a`, where that change is allowed.
pub fn nudge(b: &mut CharacterBundle, a: usize, i: usize, delta: i32)
    requires
        bundle_ok(*old(b)),
        a < 4,
        i < 8,
        delta == 0 || (delta == 1 && can_raise(old(b).tables[a as int], i as int, bundle_total(*old(b))))
            || (delta == -1 && can_lower(old(b).tables[a as int], i as int, bundle_total(*old(b)))),
    ensures
        bundle_ok(*final(b)),
        bundle_total(*final(b)) == bundle_total(*old(b)) + delta,
        final(b).tables[a as int].values[i as int] == old(b).tables[a as int].values[i as int] + delta,
        forall|c: int, k: int|
            0 <= c < 4 && 0 <= k < 8 && !(c == a && k == i) ==> #[trigger] final(b).tables[c].values[k]
                == old(b).tables[c].values[k],
        forall|c: int| 0 <= c < 4 ==> #[trigger] final(b).tables[c].start == old(b).tables[c].start,
{
    let ghost b0 = *b;
    let mut t = b.tables[a];
    t.values[i] = t.values[i] + delta;
    proof {
        lemma_nudge_table(b0.tables[a as int], t, i as int, delta as int, bundle_total(b0));
    }
    b.tables[a] = t;
    proof {
        lemma_replace_table(b0, *b, a as int);
    }
}

proof fn lemma_nudge_table(t0: AttributeTable, t1: AttributeTable, i: int, delta: int, total: int)
    requires
        table_ok(t0),
        0 <= i < 8,
        t1.start == t0.start,
        t1.values@ == t0.values@.update(i, (t0.values[i] + delta) as i32),
        delta == 0 || (delta == 1 && can_raise(t0, i, total)) || (delta == -1 && can_lower(
            t0,
            i,
            total,
        )),
    ensures
        table_ok(t1),
        table_total(t1) == table_total(t0) + delta,
        start_value(t1) == start_value(t0),
        t1.values[i] == t0.values[i] + delta,
        forall|k: int| 0 <= k < 8 && k != i ==> #[trigger] t1.values[k] == t0.values[k],
{
    assert forall|k: int| 0 <= k < 8 implies 1 <= #[trigger] t1.values[k] <= 8 by {
        assert(1 <= t0.values[k] <= 8);
    }
    assert(t0.values[i] + delta == t1.values[i]);
}

/// Replacing one table by a well-formed one with the same start index and
/// baseline keeps the bundle well formed and moves the budget by the
/// difference of the two tables' totals.
proof fn lemma_replace_table(b0: CharacterBundle, b1: CharacterBundle, a: int)
    requires
        bundle_ok(b0),
        0 <= a < 4,
        b1.tables@ == b0.tables@.update(a, b1.tables[a]),
        table_ok(b1.tables[a]),
        b1.tables[a].start == b0.tables[a].start,
        start_value(b1.tables[a]) == start_value(b0.tables[a]),
        MIN_BUDGET <= bundle_total(b0) - table_total(b0.tables[a]) + table_total(b1.tables[a])
            <= MAX_BUDGET,
    ensures
        bundle_ok(b1),
        bundle_total(b1) == bundle_total(b0) - table_total(b0.tables[a]) + table_total(b1.tables[a]),
{
    assert(forall|c: int| 0 <= c < 4 && c != a ==> #[trigger] b1.tables[c] == b0.tables[c]);
    assert forall|c: int| 0 <= c < 4 implies start_value(#[trigger] b1.tables[c]) >= min_start_value(c) by {
        assert(start_value(b0.tables[c]) >= min_start_value(c));
    }
    assert forall|c: int| 0 <= c < 4 implies table_ok(#[trigger] b1.tables[c]) by {
        assert(table_ok(b0.tables[c]));
    }
    if a == 0 {
    } else if a == 1 {
    } else if a == 2 {
    } else {
    }
}


pub open spec fn with_start(t: AttributeTable, s: int) -> AttributeTable {
    AttributeTable { values: t.values, start: s as usize }
}

/// The start index of table `c` after moving table `a1`'s by `d1` and
/// table `a2`'s by `d2`.
pub open spec fn shifted_start(b: CharacterBundle, c: int, a1: int, d1: int, a2: int, d2: int) -> int {
    b.tables[c].start + if c == a1 {
        d1
    } else if c == a2 {
        d2
    } else {
        0
    }
}

/// The bundle with table `a1`'s start index moved by `d1` and table `a2`'s
/// by `d2`; the tables' values stay.
pub open spec fn shifted(b: CharacterBundle, a1: int, d1: int, a2: int, d2: int) -> CharacterBundle {
    CharacterBundle {
        tables: [
            with_start(b.tables[0], shifted_start(b, 0, a1, d1, a2, d2)),
            with_start(b.tables[1], shifted_start(b, 1, a1, d1, a2, d2)),
            with_start(b.tables[2], shifted_start(b, 2, a1, d1, a2, d2)),
            with_start(b.tables[3], shifted_start(b, 3, a1, d1, a2, d2)),
        ],
    }
}

fn shift(b: &CharacterBundle, a1: usize, d1: i32, a2: usize, d2: i32) -> (r: CharacterBundle)
    requires
        bundle_ok(*b),
        a1 < 4,
        a2 < 4,
        a1 != a2,
        -1 <= d1 <= 1,
        -1 <= d2 <= 1,
    ensures
        r == shifted(*b, a1 as int, d1 as int, a2 as int, d2 as int),
{
    let t = &b.tables;
    CharacterBundle {
        tables: [
            AttributeTable { values: t[0].values, start: moved_start(b, 0, a1, d1, a2, d2) },
            AttributeTable { values: t[1].values, start: moved_start(b, 1, a1, d1, a2, d2) },
            AttributeTable { values: t[2].values, start: moved_start(b, 2, a1, d1, a2, d2) },
            AttributeTable { values: t[3].values, start: moved_start(b, 3, a1, d1, a2, d2) },
        ],
    }
}

fn moved_start(b: &CharacterBundle, c: usize, a1: usize, d1: i32, a2: usize, d2: i32) -> (r: usize)
    requires
        bundle_ok(*b),
        c < 4,
        -1 <= d1 <= 1,
        -1 <= d2 <= 1,
    ensures
        r == shifted_start(*b, c as int, a1 as int, d1 as int, a2 as int, d2 as int),
{
    assert(table_ok(b.tables[c as int]));
    let d: i32 = if c == a1 {
        d1
    } else if c == a2 {
        d2
    } else {
        0
    };
    if d < 0 {
        b.tables[c].start - 1
    } else {
        b.tables[c].start + d as usize
    }
}

/// The start-index moves (d1, d2) in {-1, 0, 1} x {-1, 0, 1} that keep the
/// bundle well formed when applied to tables `a1` and `a2`.
pub open spec fn shift_survives(b: CharacterBundle, a1: int, a2: int, d: (i32, i32)) -> bool {
    &&& -1 <= d.0 <= 1
    &&& -1 <= d.1 <= 1
    &&& bundle_ok(shifted(b, a1, d.0 as int, a2, d.1 as int))
}

/// Every start-index move for tables `a1` and `a2` that keeps the bundle
/// well formed, each once; the null move is always among them.
pub fn shift_candidates(b: &CharacterBundle, a1: usize, a2: usize) -> (r: Vec<(i32, i32)>)
    requires
        bundle_ok(*b),
        a1 < 4,
        a2 < 4,
        a1 != a2,
    ensures
        forall|k: int| 0 <= k < r@.len() ==> shift_survives(*b, a1 as int, a2 as int, #[trigger] r@[k]),
        forall|d: (i32, i32)| shift_survives(*b, a1 as int, a2 as int, d) ==> r@.contains(d),
        r@.contains((0i32, 0i32)),
        forall|i: int, j: int| 0 <= i < j < r@.len() ==> r@[i] != r@[j],
        1 <= r@.len() <= 9,
{
    let mut r: Vec<(i32, i32)> = Vec::new();
    let mut d1: i32 = -1;
    while d1 <= 1
        invariant
            bundle_ok(*b),
            a1 < 4,
            a2 < 4,
            a1 != a2,
            -1 <= d1 <= 2,
            r@.len() <= 3 * (d1 + 1),
            forall|k: int| 0 <= k < r@.len() ==> shift_survives(*b, a1 as int, a2 as int, #[trigger] r@[k]),
            forall|k: int| 0 <= k < r@.len() ==> (#[trigger] r@[k]).0 < d1,
            forall|d: (i32, i32)| shift_survives(*b, a1 as int, a2 as int, d) && d.0 < d1 ==> r@.contains(d),
            forall|i: int, j: int| 0 <= i < j < r@.len() ==> r@[i] != r@[j],
        decreases 2 - d1,
    {
        let mut d2: i32 = -1;
        while d2 <= 1
            invariant
                bundle_ok(*b),
                a1 < 4,
                a2 < 4,
                a1 != a2,
                -1 <= d1 <= 1,
                -1 <= d2 <= 2,
                r@.len() <= 3 * (d1 + 1) + d2 + 1,
                forall|k: int| 0 <= k < r@.len() ==> shift_survives(*b, a1 as int, a2 as int, #[trigger] r@[k]),
                forall|k: int| 0 <= k < r@.len() ==> (#[trigger] r@[k]).0 < d1 || (r@[k].0 == d1 && r@[k].1 < d2),
                forall|d: (i32, i32)| shift_survives(*b, a1 as int, a2 as int, d) && (d.0 < d1 || (d.0 == d1 && d.1 < d2)) ==> r@.contains(d),
                forall|i: int, j: int| 0 <= i < j < r@.len() ==> r@[i] != r@[j],
            decreases 2 - d2,
        {
            let cand = shift(b, a1, d1, a2, d2);
            assert(cand == shifted(*b, a1 as int, d1 as int, a2 as int, d2 as int));
            let ghost r0 = r@;
            let ok = bundle_is_ok(&cand);
            assert(ok == shift_survives(*b, a1 as int, a2 as int, (d1, d2))) by {
                reveal(shift_survives);
            }
            if ok {
                r.push((d1, d2));
                assert(r@[r@.len() - 1] == (d1, d2));
                assert forall|d: (i32, i32)|
                    shift_survives(*b, a1 as int, a2 as int, d) && (d.0 < d1 || (d.0 == d1 && d.1
                        < d2 + 1)) implies r@.contains(d) by {
                    lemma_push_contains(r0, (d1, d2), d);
                    if d.0 == d1 && d.1 == d2 {
                        assert(d == (d1, d2));
                    }
                }
            } else {
                assert forall|d: (i32, i32)|
                    shift_survives(*b, a1 as int, a2 as int, d) && (d.0 < d1 || (d.0 == d1 && d.1
                        < d2 + 1)) implies r@.contains(d) by {
                    if d.0 == d1 && d.1 == d2 {
                        assert(d == (d1, d2));
                    }
                }
            }
            d2 += 1;
        }
        d1 += 1;
    }
    assert(bundle_ok(shifted(*b, a1 as int, 0, a2 as int, 0))) by {
        assert(shifted(*b, a1 as int, 0, a2 as int, 0).tables@ =~= b.tables@);
    }
    assert(shift_survives(*b, a1 as int, a2 as int, (0i32, 0i32))) by {
        reveal(shift_survives);
    }
    assert(r@.contains((0i32, 0i32)));
    assert(r@.len() >= 1);
    r
}


proof fn lemma_push_contains(s: Seq<(i32, i32)>, x: (i32, i32), d: (i32, i32))
    ensures
        s.push(x).contains(d) <==> (s.contains(d) || d == x),
{
    if s.contains(d) {
        let k = choose|k: int| 0 <= k < s.len() && s[k] == d;
        assert(s.push(x)[k] == d);
    }
    if d == x {
        assert(s.push(x)[s.len() as int] == d);
    }
    if s.push(x).contains(d) && d != x {
        let k = choose|k: int| 0 <= k < s.len() + 1 && s.push(x)[k] == d;
        assert(s[k] == d);
    }
}


/// Table `t` (attribute `a`) may give up one point of its baseline value.
pub open spec fn can_take(t: AttributeTable, a: int) -> bool {
    let v = t.values;
    let s = t.start as int;
    &&& v[s] > 2
    &&& v[s] > v[s - 1]
    &&& v[s] >= v[s + 1] - 1
    &&& (a == MIGHT as int || v[s] > 3)
}

/// Table `t` may receive one point on its baseline value.
pub open spec fn can_give(t: AttributeTable) -> bool {
    let v = t.values;
    let s = t.start as int;
    &&& v[s] < 6
    &&& v[s] < v[s + 1]
    &&& v[s] <= v[s - 1] + 1
}

/// Moves one point of baseline value from table `from` to table `to` when
/// both sides allow it, and reports whether it did; otherwise the bundle
/// stays as it was.
pub fn transfer(b: &mut CharacterBundle, from: usize, to: usize) -> (r: bool)
    requires
        bundle_ok(*old(b)),
        from < 4,
        to < 4,
        from != to,
    ensures
        r == (can_take(old(b).tables[from as int], from as int) && can_give(
            old(b).tables[to as int],
        )),
        bundle_ok(*final(b)),
        !r ==> *final(b) == *old(b),
        r ==> start_value(final(b).tables[from as int]) == start_value(old(b).tables[from as int]) - 1,
        r ==> start_value(final(b).tables[to as int]) == start_value(old(b).tables[to as int]) + 1,
        forall|c: int| 0 <= c < 4 ==> #[trigger] final(b).tables[c].start == old(b).tables[c].start,
        forall|c: int, k: int|
            0 <= c < 4 && 0 <= k < 8 ==> -1 <= #[trigger] value_change(*old(b), *final(b), c, k) <= 1
                && (k != old(b).tables[c].start ==> value_change(*old(b), *final(b), c, k) == 0),
{
    let ghost b0 = *b;
    assert(table_ok(b.tables[from as int]) && table_ok(b.tables[to as int]));
    let tf = b.tables[from];
    let tt = b.tables[to];
    let sf = tf.start;
    let st = tt.start;
    let can_dec = tf.values[sf] > 2 && tf.values[sf] > tf.values[sf - 1] && tf.values[sf]
        >= tf.values[sf + 1] - 1 && (from == MIGHT || tf.values[sf] > 3);
    let can_inc = tt.values[st] < 6 && tt.values[st] < tt.values[st + 1] && tt.values[st]
        <= tt.values[st - 1] + 1;
    if can_dec && can_inc {
        let mut nf = tf;
        nf.values[sf] = tf.values[sf] - 1;
        let mut nt = tt;
        nt.values[st] = tt.values[st] + 1;
        b.tables[from] = nf;
        b.tables[to] = nt;
        proof {
            lemma_transfer(b0, *b, from as int, to as int);
            assert(forall|c: int| 0 <= c < 4 && c != from && c != to ==> #[trigger] b.tables[c] == b0.tables[c]);
        }
        true
    } else {
        false
    }
}

#[verifier::rlimit(40)]
proof fn lemma_transfer(b0: CharacterBundle, b1: CharacterBundle, from: int, to: int)
    requires
        bundle_ok(b0),
        0 <= from < 4,
        0 <= to < 4,
        from != to,
        can_take(b0.tables[from], from),
        can_give(b0.tables[to]),
        b1.tables[from].start == b0.tables[from].start,
        b1.tables[to].start == b0.tables[to].start,
        b1.tables[from].values@ == b0.tables[from].values@.update(
            b0.tables[from].start as int,
            (start_value(b0.tables[from]) - 1) as i32,
        ),
        b1.tables[to].values@ == b0.tables[to].values@.update(
            b0.tables[to].start as int,
            (start_value(b0.tables[to]) + 1) as i32,
        ),
        forall|c: int| 0 <= c < 4 && c != from && c != to ==> #[trigger] b1.tables[c] == b0.tables[c],
    ensures
        bundle_ok(b1),
        start_value(b1.tables[from]) == start_value(b0.tables[from]) - 1,
        start_value(b1.tables[to]) == start_value(b0.tables[to]) + 1,
        forall|c: int| 0 <= c < 4 ==> #[trigger] b1.tables[c].start == b0.tables[c].start,
{
    lemma_bump_start(b0.tables[from], b1.tables[from], -1);
    lemma_bump_start(b0.tables[to], b1.tables[to], 1);
    assert forall|c: int| 0 <= c < 4 implies table_ok(#[trigger] b1.tables[c]) by {
        assert(table_ok(b0.tables[c]));
    }
    assert forall|c: int| 0 <= c < 4 implies start_value(#[trigger] b1.tables[c]) >= min_start_value(c) by {
        assert(start_value(b0.tables[c]) >= min_start_value(c));
    }
    lemma_sum_two_changed(b0, b1, from, to, |t: AttributeTable| table_total(t), -1, 1);
    lemma_sum_two_changed(b0, b1, from, to, |t: AttributeTable| start_value(t), -1, 1);
    assert(bundle_total(b1) == bundle_total(b0));
    assert(start_value_sum(b1) == start_value_sum(b0));
    assert(constitution(b1) == constitution(b0));
}

proof fn lemma_bump_start(t0: AttributeTable, t1: AttributeTable, delta: int)
    requires
        table_ok(t0),
        delta == 1 || delta == -1,
        t1.start == t0.start,
        t1.values@ == t0.values@.update(t0.start as int, (start_value(t0) + delta) as i32),
        delta == 1 ==> can_give(t0),
        delta == -1 ==> t0.values[t0.start as int] > 2 && t0.values[t0.start as int]
            > t0.values[t0.start - 1],
    ensures
        table_ok(t1),
        table_total(t1) == table_total(t0) + delta,
        start_value(t1) == start_value(t0) + delta,
{
    assert forall|k: int| 0 <= k < 8 implies 1 <= #[trigger] t1.values[k] <= 8 by {
        assert(1 <= t0.values[k] <= 8);
    }
}

/// Where only tables `p` and `q` differ, a per-table quantity summed over the
/// four tables moves by the two tables' own changes.
proof fn lemma_sum_two_changed(
    b0: CharacterBundle,
    b1: CharacterBundle,
    p: int,
    q: int,
    f: spec_fn(AttributeTable) -> int,
    dp: int,
    dq: int,
)
    requires
        0 <= p < 4,
        0 <= q < 4,
        p != q,
        forall|c: int| 0 <= c < 4 && c != p && c != q ==> #[trigger] b1.tables[c] == b0.tables[c],
        f(b1.tables[p]) == f(b0.tables[p]) + dp,
        f(b1.tables[q]) == f(b0.tables[q]) + dq,
    ensures
        f(b1.tables[0]) + f(b1.tables[1]) + f(b1.tables[2]) + f(b1.tables[3]) == f(b0.tables[0])
            + f(b0.tables[1]) + f(b0.tables[2]) + f(b0.tables[3]) + dp + dq,
{
    if p != 0 && q != 0 {
        assert(b1.tables[0] == b0.tables[0]);
    }
    if p != 1 && q != 1 {
        assert(b1.tables[1] == b0.tables[1]);
    }
    if p != 2 && q != 2 {
        assert(b1.tables[2] == b0.tables[2]);
    }
    if p != 3 && q != 3 {
        assert(b1.tables[3] == b0.tables[3]);
    }
}


/// Per-position perturbation: each entry of each table, in order, with
/// chance 1/10 takes a change picked uniformly among 0 and the allowed unit
/// changes; the running budget follows every change.
fn perturb(b: &mut CharacterBundle, rng: &mut StdRng)
    requires
        bundle_ok(*old(b)),
    ensures
        bundle_ok(*final(b)),
        forall|c: int| 0 <= c < 4 ==> #[trigger] final(b).tables[c].start == old(b).tables[c].start,
        forall|c: int, k: int|
            0 <= c < 4 && 0 <= k < 8 ==> -1 <= #[trigger] value_change(*old(b), *final(b), c, k) <= 1
                && (k == old(b).tables[c].start ==> value_change(*old(b), *final(b), c, k) == 0),
{
    let ghost b0 = *b;
    let mut total = bundle_sum(b);
    let mut a: usize = 0;
    while a < 4
        invariant
            a <= 4,
            bundle_ok(*b),
            total == bundle_total(*b),
            forall|c: int| 0 <= c < 4 ==> #[trigger] b.tables[c].start == b0.tables[c].start,
            forall|c: int, k: int|
                0 <= c < 4 && 0 <= k < 8 ==> -1 <= #[trigger] value_change(b0, *b, c, k) <= 1 && (k
                    == b0.tables[c].start ==> value_change(b0, *b, c, k) == 0) && (c >= a
                    ==> value_change(b0, *b, c, k) == 0),
        decreases 4 - a,
    {
        let mut i: usize = 0;
        while i < 8
            invariant
                a < 4,
                i <= 8,
                bundle_ok(*b),
                total == bundle_total(*b),
                forall|c: int| 0 <= c < 4 ==> #[trigger] b.tables[c].start == b0.tables[c].start,
                forall|c: int, k: int|
                    0 <= c < 4 && 0 <= k < 8 ==> -1 <= #[trigger] value_change(b0, *b, c, k) <= 1 && (k
                        == b0.tables[c].start ==> value_change(b0, *b, c, k) == 0) && ((c > a || (c == a
                        && k >= i)) ==> value_change(b0, *b, c, k) == 0),
            decreases 8 - i,
        {
            if gen_ratio(rng, 1, 10) {
                assert(table_ok(b.tables[a as int]));
                let (up, down) = perturb_options(&b.tables[a], i, total);
                let n: usize = 1 + (if up { 1usize } else { 0 }) + (if down { 1usize } else { 0 });
                let k = gen_index(rng, n);
                let delta = pick_delta(up, down, k);
                let ghost bp = *b;
                assert(delta != 0 ==> i != b0.tables[a as int].start);
                assert(value_change(b0, bp, a as int, i as int) == 0);
                nudge(b, a, i, delta);
                total = total + delta;
                assert forall|c: int, k: int| 0 <= c < 4 && 0 <= k < 8 implies -1
                    <= #[trigger] value_change(b0, *b, c, k) <= 1 && (k == b0.tables[c].start
                    ==> value_change(b0, *b, c, k) == 0) && ((c > a || (c == a && k >= i + 1))
                    ==> value_change(b0, *b, c, k) == 0) by {
                    assert(-1 <= value_change(b0, bp, c, k) <= 1);
                    assert(k == b0.tables[c].start ==> value_change(b0, bp, c, k) == 0);
                    assert((c > a || (c == a && k >= i)) ==> value_change(b0, bp, c, k) == 0);
                    if !(c == a && k == i) {
                        assert(b.tables[c].values[k] == bp.tables[c].values[k]);
                        assert(value_change(b0, *b, c, k) == value_change(b0, bp, c, k));
                    } else {
                        assert(b.tables[c].values[k] == bp.tables[c].values[k] + delta);
                        assert(value_change(b0, *b, c, k) == delta);
                    }
                }
            }
            i += 1;
        }
        a += 1;
    }
}

/// Mutates a bundle once: the per-position perturbation, then with chance
/// 1/5 a start-index rebalancing of two attributes, then with chance 1/5 a
/// baseline transfer between two attributes. Every outcome is well formed.
#[verifier::rlimit(60)]
pub fn mutate_bundle(b: &mut CharacterBundle, rng: &mut StdRng)
    requires
        bundle_ok(*old(b)),
    ensures
        bundle_ok(*final(b)),
        within_one_mutation(*old(b), *final(b)),
{
    let ghost b0 = *b;
    perturb(b, rng);
    let ghost b1 = *b;
    let ghost mut p: int = 0;
    let ghost mut q: int = 1;
    if gen_ratio(rng, 1, 5) {
        let pair = sample_distinct(rng, 4, 2);
        let a1 = pair[0];
        let a2 = pair[1];
        let cands = shift_candidates(b, a1, a2);
        let k = gen_index(rng, cands.len());
        let (d1, d2) = cands[k];
        proof {
            reveal(shift_survives);
            assert(shift_survives(*b, a1 as int, a2 as int, cands@[k as int]));
        }
        let nb = shift(b, a1, d1, a2, d2);
        proof {
            lemma_shift_moves(*b, a1 as int, d1 as int, a2 as int, d2 as int);
        }
        *b = nb;
        proof {
            p = a1 as int;
            q = a2 as int;
        }
    }
    let ghost b2 = *b;
    assert(starts_kept_but(b1, b2, p, q));
    if gen_ratio(rng, 1, 5) {
        let pair = sample_distinct(rng, 4, 2);
        transfer(b, pair[0], pair[1]);
    }
    proof {
        lemma_one_mutation(b0, b1, b2, *b, p, q);
    }
}

proof fn lemma_shift_moves(b: CharacterBundle, a1: int, d1: int, a2: int, d2: int)
    requires
        bundle_ok(b),
        -1 <= d1 <= 1,
        -1 <= d2 <= 1,
        a1 != a2,
    ensures
        forall|c: int| 0 <= c < 4 ==> (#[trigger] shifted(b, a1, d1, a2, d2).tables[c]).values == b.tables[c].values,
        forall|c: int| 0 <= c < 4 ==> -1 <= (#[trigger] shifted(b, a1, d1, a2, d2).tables[c]).start as int
            - b.tables[c].start <= 1,
        starts_kept_but(b, shifted(b, a1, d1, a2, d2), a1, a2),
{
    let r = shifted(b, a1, d1, a2, d2);
    assert forall|c: int| 0 <= c < 4 implies (#[trigger] r.tables[c]).values == b.tables[c].values && -1
        <= r.tables[c].start as int - b.tables[c].start <= 1 by {
        assert(table_ok(b.tables[c]));
        if c == 0 {} else if c == 1 {} else if c == 2 {} else {}
    }
    assert forall|c: int| 0 <= c < 4 && c != a1 && c != a2 implies (#[trigger] r.tables[c]).start
        == b.tables[c].start by {
        if c == 0 {} else if c == 1 {} else if c == 2 {} else {}
    }
}

/// A perturbation (`b0` to `b1`), a move of the start indices of tables `p`
/// and `q` (`b1` to `b2`) and a baseline transfer (`b2` to `b3`) make one
/// mutation.
proof fn lemma_one_mutation(
    b0: CharacterBundle,
    b1: CharacterBundle,
    b2: CharacterBundle,
    b3: CharacterBundle,
    p: int,
    q: int,
)
    requires
        forall|c: int| 0 <= c < 4 ==> #[trigger] b1.tables[c].start == b0.tables[c].start,
        forall|c: int, k: int|
            0 <= c < 4 && 0 <= k < 8 ==> -1 <= #[trigger] value_change(b0, b1, c, k) <= 1,
        forall|c: int| 0 <= c < 4 ==> (#[trigger] b2.tables[c]).values == b1.tables[c].values,
        forall|c: int| 0 <= c < 4 ==> -1 <= (#[trigger] b2.tables[c]).start - b1.tables[c].start <= 1,
        starts_kept_but(b1, b2, p, q),
        forall|c: int| 0 <= c < 4 ==> #[trigger] b3.tables[c].start == b2.tables[c].start,
        forall|c: int, k: int|
            0 <= c < 4 && 0 <= k < 8 ==> -1 <= #[trigger] value_change(b2, b3, c, k) <= 1 && (k
                != b2.tables[c].start ==> value_change(b2, b3, c, k) == 0),
    ensures
        within_one_mutation(b0, b3),
{
    assert(starts_kept_but(b0, b3, p, q)) by {
        assert forall|c: int| 0 <= c < 4 && c != p && c != q implies (#[trigger] b3.tables[c]).start
            == b0.tables[c].start by {
            assert(b1.tables[c].start == b0.tables[c].start);
            assert(b2.tables[c].start == b1.tables[c].start);
        }
    }
    assert forall|c: int, k: int| 0 <= c < 4 && 0 <= k < 8 implies -2
        <= #[trigger] value_change(b0, b3, c, k) <= 2 && (k != b3.tables[c].start ==> -1
        <= value_change(b0, b3, c, k) <= 1) by {
        assert(-1 <= value_change(b0, b1, c, k) <= 1);
        assert(-1 <= value_change(b2, b3, c, k) <= 1);
        assert(b2.tables[c].values == b1.tables[c].values);
        assert(b2.tables[c].values[k] == b1.tables[c].values[k]);
        assert(b3.tables[c].start == b2.tables[c].start);
    }
    assert forall|c: int| 0 <= c < 4 implies -1 <= (#[trigger] b3.tables[c]).start - b0.tables[c].start
        <= 1 by {
        assert(b1.tables[c].start == b0.tables[c].start);
        assert(-1 <= b2.tables[c].start - b1.tables[c].start <= 1);
        assert(b3.tables[c].start == b2.tables[c].start);
    }
}

} // verus!
