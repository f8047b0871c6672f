//! The fitness function: how far a set of character bundles is from the
//! designer's rankings and the balance targets. Lower is better.
//!
//! The weighted power of a table uses the weights 1/2, 1/4, ... and is kept
//! exactly as an integer scaled by 16. The average penalties are the exact
//! values of `|mean - target| * 10`, truncated toward zero.
use crate::bundle::{AttributeTable, CharacterBundle, bundle_ok, start_value, table_ok, MIGHT};
use crate::rankings::{Rankings, MAX_CHARACTERS};
use vstd::prelude::*;

verus! {

/// The values at `start - k` and `min(start + k, 7)`.
pub open spec fn pair_sum(t: AttributeTable, k: int) -> int {
    let s = t.start as int;
    t.values[s - k] + t.values[if s + k < 7 {
        s + k
    } else {
        7
    }]
}

/// The weighted power of a table, times 16: the baseline value plus, for
/// each offset 1 up to the start index, the pair of values around the
/// baseline, weighted 1/2, 1/4, 1/8, 1/16.
pub open spec fn power16(t: AttributeTable) -> int {
    let s = t.start as int;
    16 * start_value(t) + 8 * pair_sum(t, 1) + 4 * pair_sum(t, 2) + (if s >= 3 {
        2 * pair_sum(t, 3)
    } else {
        0
    }) + (if s >= 4 {
        pair_sum(t, 4)
    } else {
        0
    })
}

pub fn power16_exec(t: &AttributeTable) -> (r: i32)
    requires
        table_ok(*t),
    ensures
        r == power16(*t),
        0 <= r <= 400,
{
    let v = &t.values;
    let s = t.start;
    assert(1 <= v[s as int - 1] <= 8 && 1 <= v[s as int - 2] <= 8 && 1 <= v[s as int] <= 8);
    assert(1 <= v[s as int + 1] <= 8 && 1 <= v[s as int + 2] <= 8 && 1 <= v[7] <= 8);
    let mut r = 16 * v[s] + 8 * (v[s - 1] + v[s + 1]) + 4 * (v[s - 2] + v[s + 2]);
    if s >= 3 {
        assert(1 <= v[s as int - 3] <= 8);
        let hi = if s + 3 < 7 { s + 3 } else { 7 };
        assert(1 <= v[hi as int] <= 8);
        r = r + 2 * (v[s - 3] + v[hi]);
    }
    if s >= 4 {
        assert(1 <= v[s as int - 4] <= 8);
        r = r + (v[s - 4] + v[7]);
    }
    r
}

/// The weighted powers of every character for attribute `a`.
pub open spec fn powers(chars: Seq<CharacterBundle>, a: int) -> Seq<int> {
    Seq::new(chars.len(), |c: int| power16(chars[c].tables[a]))
}

/// Character `d` is placed before character `c` when ranked by power,
/// descending, equal powers keeping the characters' own order.
pub open spec fn beats(p: Seq<int>, d: int, c: int) -> bool {
    p[d] > p[c] || (p[d] == p[c] && d < c)
}

/// How many of the characters `0..m` are placed before `c`.
pub open spec fn placed_before(p: Seq<int>, c: int, m: int) -> int
    decreases m,
{
    if m <= 0 {
        0
    } else {
        placed_before(p, c, m - 1) + if beats(p, m - 1, c) {
            1int
        } else {
            0
        }
    }
}

/// The position of character `c` when the characters are sorted by power.
pub open spec fn computed_rank(chars: Seq<CharacterBundle>, a: int, c: int) -> int {
    placed_before(powers(chars, a), c, chars.len() as int)
}

pub open spec fn abs(x: int) -> int {
    if x < 0 {
        -x
    } else {
        x
    }
}

/// Over the first `m` places of the designer's order for attribute `a`, the
/// distance between each character's place there and its computed rank.
pub open spec fn rank_error(chars: Seq<CharacterBundle>, order: Seq<usize>, a: int, m: int) -> int
    decreases m,
{
    if m <= 0 {
        0
    } else {
        rank_error(chars, order, a, m - 1) + abs((m - 1) - computed_rank(chars, a, order[m - 1] as int))
    }
}

pub open spec fn rank_score(chars: Seq<CharacterBundle>, rk: Rankings) -> int {
    rank_error(chars, rk.order(0), 0, rk.count() as int) + rank_error(chars, rk.order(1), 1, rk.count() as int)
        + rank_error(chars, rk.order(2), 2, rk.count() as int) + rank_error(chars, rk.order(3), 3, rk.count() as int)
}

/// The sum of the baseline values of attribute `a` over characters `0..m`.
pub open spec fn start_sum(chars: Seq<CharacterBundle>, a: int, m: int) -> int
    decreases m,
{
    if m <= 0 {
        0
    } else {
        start_sum(chars, a, m - 1) + start_value(chars[m - 1].tables[a])
    }
}

/// `|sum / n - target| * 10`, truncated, with the target 3.25 for Might and
/// 4 for the other attributes.
pub open spec fn avg_penalty(a: int, sum: int, n: int) -> int {
    if a == MIGHT as int {
        (5 * abs(4 * sum - 13 * n)) / (2 * n)
    } else {
        (10 * abs(sum - 4 * n)) / n
    }
}

pub open spec fn avg_score(chars: Seq<CharacterBundle>) -> int {
    let n = chars.len() as int;
    avg_penalty(0, start_sum(chars, 0, n), n) + avg_penalty(1, start_sum(chars, 1, n), n)
        + avg_penalty(2, start_sum(chars, 2, n), n) + avg_penalty(3, start_sum(chars, 3, n), n)
}

/// How many of a bundle's tables start at index 4.
pub open spec fn fours_of(b: CharacterBundle) -> int {
    (if b.tables[0].start == 4 { 1int } else { 0 }) + (if b.tables[1].start == 4 { 1int } else { 0 })
        + (if b.tables[2].start == 4 { 1int } else { 0 }) + (if b.tables[3].start == 4 { 1int } else { 0 })
}

/// Over characters `0..m`: the tables that start at index 4.
pub open spec fn four_count(chars: Seq<CharacterBundle>, m: int) -> int
    decreases m,
{
    if m <= 0 {
        0
    } else {
        four_count(chars, m - 1) + fours_of(chars[m - 1])
    }
}

/// Over characters `0..m`: those whose start indices sum to 10.
pub open spec fn ten_count(chars: Seq<CharacterBundle>, m: int) -> int
    decreases m,
{
    if m <= 0 {
        0
    } else {
        ten_count(chars, m - 1) + if crate::bundle::constitution(chars[m - 1]) == 10 {
            1int
        } else {
            0
        }
    }
}

/// `|tens - elevens| - min(fours, n / 2)`, in signed arithmetic: it is
/// negative where the index-4 tables outweigh the imbalance.
pub open spec fn diversity_penalty(chars: Seq<CharacterBundle>) -> int {
    let n = chars.len() as int;
    let tens = ten_count(chars, n);
    let fours = four_count(chars, n);
    abs(tens - (n - tens)) - if fours < n / 2 {
        fours
    } else {
        n / 2
    }
}

/// The fitness of a set of bundles against the rankings: lower is better.
#[verifier::opaque]
pub open spec fn fitness_of(chars: Seq<CharacterBundle>, rk: Rankings) -> int {
    rank_score(chars, rk) + avg_score(chars) + diversity_penalty(chars)
}


/// The powers of every character for attribute `a`.
fn powers_exec(chars: &Vec<CharacterBundle>, a: usize) -> (r: Vec<i32>)
    requires
        a < 4,
        forall|c: int| 0 <= c < chars@.len() ==> bundle_ok(#[trigger] chars@[c]),
    ensures
        r@.len() == chars@.len(),
        forall|c: int| 0 <= c < r@.len() ==> #[trigger] r@[c] as int == powers(chars@, a as int)[c],
        forall|c: int| 0 <= c < r@.len() ==> 0 <= #[trigger] r@[c] <= 400,
{
    let mut r: Vec<i32> = Vec::new();
    let mut c: usize = 0;
    while c < chars.len()
        invariant
            a < 4,
            forall|c: int| 0 <= c < chars@.len() ==> bundle_ok(#[trigger] chars@[c]),
            c <= chars@.len(),
            r@.len() == c,
            forall|k: int| 0 <= k < c ==> #[trigger] r@[k] as int == powers(chars@, a as int)[k],
            forall|k: int| 0 <= k < c ==> 0 <= #[trigger] r@[k] <= 400,
        decreases chars@.len() - c,
    {
        assert(bundle_ok(chars@[c as int]));
        assert(table_ok(chars@[c as int].tables[a as int]));
        let p = power16_exec(&chars[c].tables[a]);
        r.push(p);
        c += 1;
    }
    r
}

/// The computed rank of character `c`, from the powers `pv`.
fn rank_of(pv: &Vec<i32>, c: usize, p: Ghost<Seq<int>>) -> (r: usize)
    requires
        c < pv@.len(),
        p@.len() == pv@.len(),
        forall|k: int| 0 <= k < pv@.len() ==> #[trigger] pv@[k] as int == p@[k],
    ensures
        r == placed_before(p@, c as int, pv@.len() as int),
        r <= pv@.len(),
{
    let mut r: usize = 0;
    let mut d: usize = 0;
    while d < pv.len()
        invariant
            c < pv@.len(),
            p@.len() == pv@.len(),
            forall|k: int| 0 <= k < pv@.len() ==> #[trigger] pv@[k] as int == p@[k],
            d <= pv@.len(),
            r <= d,
            r == placed_before(p@, c as int, d as int),
        decreases pv@.len() - d,
    {
        assert(pv@[d as int] as int == p@[d as int] && pv@[c as int] as int == p@[c as int]);
        if pv[d] > pv[c] || (pv[d] == pv[c] && d < c) {
            r += 1;
        }
        d += 1;
    }
    r
}

/// The rank error of one attribute.
fn rank_error_exec(chars: &Vec<CharacterBundle>, order: &Vec<usize>, a: usize) -> (r: i32)
    requires
        a < 4,
        chars@.len() <= MAX_CHARACTERS,
        order@.len() == chars@.len(),
        forall|k: int| 0 <= k < order@.len() ==> #[trigger] order@[k] < chars@.len(),
        forall|c: int| 0 <= c < chars@.len() ==> bundle_ok(#[trigger] chars@[c]),
    ensures
        r == rank_error(chars@, order@, a as int, order@.len() as int),
        0 <= r <= MAX_CHARACTERS * MAX_CHARACTERS,
{
    let pv = powers_exec(chars, a);
    let ghost p = powers(chars@, a as int);
    let mut acc: i32 = 0;
    let mut i: usize = 0;
    while i < order.len()
        invariant
            a < 4,
            chars@.len() <= MAX_CHARACTERS,
            order@.len() == chars@.len(),
            forall|k: int| 0 <= k < order@.len() ==> #[trigger] order@[k] < chars@.len(),
            pv@.len() == chars@.len(),
            p == powers(chars@, a as int),
            forall|k: int| 0 <= k < pv@.len() ==> #[trigger] pv@[k] as int == p[k],
            i <= order@.len(),
            0 <= acc <= i * MAX_CHARACTERS,
            acc == rank_error(chars@, order@, a as int, i as int),
        decreases order@.len() - i,
    {
        let c = order[i];
        let rk = rank_of(&pv, c, Ghost(p));
        let e: i32 = if rk >= i {
            (rk - i) as i32
        } else {
            (i - rk) as i32
        };
        acc = acc + e;
        i += 1;
    }
    acc
}


/// The sum of the baseline values of attribute `a`.
fn start_sum_exec(chars: &Vec<CharacterBundle>, a: usize) -> (r: usize)
    requires
        a < 4,
        forall|c: int| 0 <= c < chars@.len() ==> bundle_ok(#[trigger] chars@[c]),
        chars@.len() <= MAX_CHARACTERS,
    ensures
        r == start_sum(chars@, a as int, chars@.len() as int),
        r <= 8 * chars@.len(),
{
    let mut r: usize = 0;
    let mut c: usize = 0;
    while c < chars.len()
        invariant
            a < 4,
            forall|c: int| 0 <= c < chars@.len() ==> bundle_ok(#[trigger] chars@[c]),
            chars@.len() <= MAX_CHARACTERS,
            c <= chars@.len(),
            r == start_sum(chars@, a as int, c as int),
            r <= 8 * c,
        decreases chars@.len() - c,
    {
        let t = &chars[c].tables[a];
        assert(bundle_ok(chars@[c as int]));
        assert(table_ok(*t));
        assert(1 <= t.values[t.start as int] <= 8);
        r = r + t.values[t.start] as usize;
        c += 1;
    }
    r
}

fn avg_penalty_exec(a: usize, sum: usize, n: usize) -> (r: usize)
    requires
        1 <= n <= MAX_CHARACTERS,
        sum <= 8 * n,
    ensures
        r == avg_penalty(a as int, sum as int, n as int),
        r <= 100,
{
    if a == MIGHT {
        let d: usize = if 4 * sum >= 13 * n {
            4 * sum - 13 * n
        } else {
            13 * n - 4 * sum
        };
        assert(d <= 32 * n);
        assert((5 * d as int) / (2 * n as int) <= 100) by {
            assert(5 * d <= 80 * (2 * n));
            vstd::arithmetic::div_mod::lemma_div_is_ordered(5 * d as int, 80 * (2 * n as int), 2 * n as int);
            vstd::arithmetic::div_mod::lemma_div_by_multiple(80, 2 * n as int);
        }
        5 * d / (2 * n)
    } else {
        let d: usize = if sum >= 4 * n {
            sum - 4 * n
        } else {
            4 * n - sum
        };
        assert(d <= 4 * n);
        assert((10 * d as int) / (n as int) <= 100) by {
            assert(10 * d <= 40 * n);
            vstd::arithmetic::div_mod::lemma_div_is_ordered(10 * d as int, 40 * n as int, n as int);
            vstd::arithmetic::div_mod::lemma_div_by_multiple(40, n as int);
        }
        10 * d / n
    }
}

/// The diversity penalty.
fn diversity_exec(chars: &Vec<CharacterBundle>) -> (r: i32)
    requires
        forall|c: int| 0 <= c < chars@.len() ==> bundle_ok(#[trigger] chars@[c]),
        chars@.len() <= MAX_CHARACTERS,
    ensures
        r == diversity_penalty(chars@),
        -(MAX_CHARACTERS as int) <= r <= MAX_CHARACTERS,
{
    let n = chars.len();
    let mut fours: usize = 0;
    let mut tens: usize = 0;
    let mut c: usize = 0;
    while c < n
        invariant
            n == chars@.len(),
            forall|c: int| 0 <= c < chars@.len() ==> bundle_ok(#[trigger] chars@[c]),
            n <= MAX_CHARACTERS,
            c <= n,
            fours == four_count(chars@, c as int),
            tens == ten_count(chars@, c as int),
            fours <= 4 * c,
            tens <= c,
        decreases n - c,
    {
        let b = &chars[c];
        assert(bundle_ok(chars@[c as int]));
        let mut f: usize = 0;
        if b.tables[0].start == 4 {
            f += 1;
        }
        if b.tables[1].start == 4 {
            f += 1;
        }
        if b.tables[2].start == 4 {
            f += 1;
        }
        if b.tables[3].start == 4 {
            f += 1;
        }
        fours = fours + f;
        assert(table_ok(b.tables[0]) && table_ok(b.tables[1]) && table_ok(b.tables[2]) && table_ok(b.tables[3]));
        if b.tables[0].start + b.tables[1].start + b.tables[2].start + b.tables[3].start == 10 {
            tens = tens + 1;
        }
        c += 1;
    }
    let elevens = n - tens;
    let diff: i32 = if tens >= elevens {
        (tens - elevens) as i32
    } else {
        (elevens - tens) as i32
    };
    let half = n / 2;
    let m: i32 = if fours < half {
        fours as i32
    } else {
        half as i32
    };
    diff - m
}

/// The fitness of a set of bundles against the rankings.
pub fn fitness_exec(chars: &Vec<CharacterBundle>, rk: &Rankings) -> (r: i32)
    requires
        rk.wf(),
        chars@.len() == rk.count(),
        forall|c: int| 0 <= c < chars@.len() ==> bundle_ok(#[trigger] chars@[c]),
    ensures
        r == fitness_of(chars@, *rk),
{
    let n = chars.len();
    let mut rank: i32 = 0;
    let mut avg: usize = 0;
    let mut a: usize = 0;
    while a < 4
        invariant
            rk.wf(),
            n == chars@.len() == rk.count(),
            forall|c: int| 0 <= c < chars@.len() ==> bundle_ok(#[trigger] chars@[c]),
            a <= 4,
            0 <= rank <= a * (MAX_CHARACTERS * MAX_CHARACTERS),
            avg <= a * 100,
            rank == (if a > 0 { rank_error(chars@, rk.order(0), 0, n as int) } else { 0 }) + (if a > 1 {
                rank_error(chars@, rk.order(1), 1, n as int)
            } else {
                0
            }) + (if a > 2 { rank_error(chars@, rk.order(2), 2, n as int) } else { 0 }) + (if a > 3 {
                rank_error(chars@, rk.order(3), 3, n as int)
            } else {
                0
            }),
            avg == (if a > 0 { avg_penalty(0, start_sum(chars@, 0, n as int), n as int) } else { 0 }) + (
            if a > 1 {
                avg_penalty(1, start_sum(chars@, 1, n as int), n as int)
            } else {
                0
            }) + (if a > 2 { avg_penalty(2, start_sum(chars@, 2, n as int), n as int) } else { 0 }) + (
            if a > 3 {
                avg_penalty(3, start_sum(chars@, 3, n as int), n as int)
            } else {
                0
            }),
        decreases 4 - a,
    {
        assert(crate::rankings::is_order(rk.orders@[a as int]@, rk.count()));
        let e = rank_error_exec(chars, &rk.orders[a], a);
        rank = rank + e;
        let s = start_sum_exec(chars, a);
        avg = avg + avg_penalty_exec(a, s, n);
        a += 1;
    }
    let d = diversity_exec(chars);
    proof {
        reveal(fitness_of);
    }
    rank + avg as i32 + d
}

} // verus!
