//! Properties of the engine, stated over its specifications and proved.
use crate::bundle::{CharacterBundle, bundle_ok, constitution, start_value_sum, bundle_total, table_ok};
use crate::individual::{Individual, crossover_spec, default_chars};
use crate::population::{Population, generation_step, has_id};
use crate::rankings::Rankings;
use vstd::prelude::*;

verus! {

/// Every bundle of every individual of a well-formed population keeps the
/// bundle invariants: tables of values in [1, 8], non-decreasing, start
/// indices in [2, 4] summing to 10 or 11, baselines summing to 15 with the
/// per-attribute minimums, and a points budget in [145, 155].
pub proof fn lemma_bundles_always_ok(p: Population, i: int, c: int)
    requires
        p.wf(),
        0 <= i < p.pop@.len(),
        0 <= c < p.pop@[i].chars@.len(),
    ensures
        bundle_ok(p.pop@[i].chars@[c]),
        forall|a: int| 0 <= a < 4 ==> table_ok(#[trigger] p.pop@[i].chars@[c].tables[a]),
        10 <= constitution(p.pop@[i].chars@[c]) <= 11,
        start_value_sum(p.pop@[i].chars@[c]) == 15,
        145 <= bundle_total(p.pop@[i].chars@[c]) <= 155,
{
    assert(p.pop@[i].wf(p.rankings));
}

/// Crossing two parents with identical bundles gives those bundles back,
/// whatever parent each character is taken from.
pub proof fn lemma_crossover_identical_parents(
    a: Seq<CharacterBundle>,
    b: Seq<CharacterBundle>,
    picks: Seq<bool>,
)
    requires
        a == b,
        picks.len() == a.len(),
    ensures
        crossover_spec(a, b, picks) == a,
{
    assert(crossover_spec(a, b, picks) =~= a);
}

/// Two unmutated individuals scored against the same rankings have the
/// same fitness: scoring depends on nothing but the bundles and the
/// rankings.
pub proof fn lemma_unmutated_fitness_determined(x: Individual, y: Individual, rk: Rankings)
    requires
        x.wf(rk),
        y.wf(rk),
        x.chars@ == default_chars(rk.count()),
        y.chars@ == default_chars(rk.count()),
    ensures
        x.fitness == y.fitness,
{
}

/// No two individuals of a well-formed population share an id.
pub proof fn lemma_ids_unique(p: Population, i: int, j: int)
    requires
        p.wf(),
        0 <= i < p.pop@.len(),
        0 <= j < p.pop@.len(),
        i != j,
    ensures
        p.pop@[i].id != p.pop@[j].id,
{
    if i < j {
        assert(p.pop@[i].id != p.pop@[j].id);
    } else {
        assert(p.pop@[j].id != p.pop@[i].id);
    }
}

/// Every id in a well-formed population is below its counter, so the ids a
/// generation hands out (the counter and the next) exceed all of them.
pub proof fn lemma_new_ids_exceed_old(p: Population, x: usize)
    requires
        p.wf(),
        has_id(p.pop@, x),
    ensures
        x < p.counter,
{
    let k = choose|k: int| 0 <= k < p.pop@.len() && #[trigger] p.pop@[k].id == x;
    assert(p.pop@[k].id < p.counter);
}

/// Across a completed generation the size stays, the two culled ids are
/// gone, and the two ids that appear are new and larger than every id that
/// was there before.
pub proof fn lemma_generation_turnover(
    before: Population,
    after: Population,
    culled: (usize, usize),
    picks: Seq<usize>,
    cx: int,
    cy: int,
)
    requires
        before.wf(),
        generation_step(before, after, culled, picks, cx, cy),
    ensures
        after.pop@.len() == before.pop@.len(),
        culled.0 != culled.1,
        has_id(before.pop@, culled.0),
        has_id(before.pop@, culled.1),
        !has_id(after.pop@, culled.0),
        !has_id(after.pop@, culled.1),
        has_id(after.pop@, before.counter),
        before.counter < usize::MAX ==> has_id(after.pop@, (before.counter + 1) as usize),
        forall|x: usize| has_id(before.pop@, x) ==> x < before.counter,
{
    assert forall|x: usize| has_id(before.pop@, x) implies x < before.counter by {
        lemma_new_ids_exceed_old(before, x);
    }
    let (k1, k2) = choose|k1: int, k2: int|
        0 <= k1 < 4 && 0 <= k2 < 4 && k1 != k2 && before.pop@[picks[k1] as int].id == culled.0
            && before.pop@[picks[k2] as int].id == culled.1 && forall|k: int|
            0 <= k < 4 && k != k1 && k != k2 ==> before.pop@[picks[k] as int].fitness
                <= before.pop@[picks[k1] as int].fitness && before.pop@[picks[k] as int].fitness
                <= before.pop@[picks[k2] as int].fitness;
    assert(before.pop@[picks[k1] as int].id == culled.0);
    assert(before.pop@[picks[k2] as int].id == culled.1);
    assert(culled.0 < before.counter && culled.1 < before.counter);
}

} // verus!
