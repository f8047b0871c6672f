//! The population: individuals spread over a toroidal coordinate space, and
//! the generational loop of local selection, culling and breeding.
use crate::bundle::{bundle_ok, within_one_mutation};
use crate::individual::Individual;
use crate::random::{gen_index, sample_distinct};
use crate::rankings::Rankings;
use rand::rngs::StdRng;
use vstd::prelude::*;

verus! {

/// The extent of each axis of the default coordinate space.
pub const DEFAULT_EXTENT: i32 = 1000;

/// The default half-width of the selection window.
pub const DEFAULT_HALF_WIDTH: i32 = 50;

/// The largest extent of an axis.
pub const MAX_EXTENT: i32 = 1_000_000_000;

/// How many window centers one generation tries before it gives up.
pub const MAX_ATTEMPTS: usize = 10_000;

/// Why a run of generations stopped early.
#[derive(Clone, Copy, Debug, PartialEq, Eq)]
pub enum RunError {
    /// No window among `MAX_ATTEMPTS` random centers held four individuals.
    InsufficientDensity,
}

pub open spec fn dist(a: int, b: int) -> int {
    if a >= b {
        a - b
    } else {
        b - a
    }
}

/// Position `p` lies within `hw` of center `c` on an axis of extent `ext`
/// whose two ends meet.
pub open spec fn near_spec(p: int, c: int, hw: int, ext: int) -> bool {
    dist(p, c) <= hw || ext - dist(p, c) <= hw
}

/// Whether position `p` lies within `hw` of center `c` on a wrapping axis of
/// extent `ext`.
pub fn near(p: i32, c: i32, hw: i32, ext: i32) -> (r: bool)
    requires
        0 <= p < ext,
        0 <= c < ext,
        0 <= hw,
    ensures
        r == near_spec(p as int, c as int, hw as int, ext as int),
{
    let d: i32 = if p >= c {
        p - c
    } else {
        c - p
    };
    d <= hw || ext - d <= hw
}

/// Some individual of `pop` has the id `id`.
pub open spec fn has_id(pop: Seq<Individual>, id: usize) -> bool {
    exists|i: int| 0 <= i < pop.len() && #[trigger] pop[i].id == id
}

pub open spec fn all_wf(s: Seq<Individual>, rk: Rankings) -> bool {
    forall|i: int| 0 <= i < s.len() ==> (#[trigger] s[i]).wf(rk)
}

pub open spec fn all_placed(s: Seq<Individual>, xa: i32, ya: i32) -> bool {
    forall|i: int| 0 <= i < s.len() ==> 0 <= (#[trigger] s[i]).x < xa && 0 <= s[i].y < ya
}

/// The ids are distinct and below `counter`.
pub open spec fn ids_below(s: Seq<Individual>, counter: usize) -> bool {
    &&& forall|i: int| 0 <= i < s.len() ==> (#[trigger] s[i]).id < counter
    &&& forall|i: int, j: int| 0 <= i < j < s.len() ==> #[trigger] s[i].id != #[trigger] s[j].id
}

/// `ind` is one of the individuals of `s`, unchanged.
pub open spec fn has_member(s: Seq<Individual>, ind: Individual) -> bool {
    exists|j: int| 0 <= j < s.len() && #[trigger] s[j] == ind
}

/// One completed generation: the window center, the indices of the four
/// individuals drawn from the window, and the ids of the two culled.
pub struct Generation {
    pub center_x: i32,
    pub center_y: i32,
    pub picks: Vec<usize>,
    pub culled: (usize, usize),
}

pub struct Population {
    pub pop: Vec<Individual>,
    pub x_axis: i32,
    pub y_axis: i32,
    pub half_width: i32,
    pub rankings: Rankings,
    /// The id the next individual gets.
    pub counter: usize,
}

/// Each of `child`'s bundles is within one mutation of the same character's
/// bundle in one of the picks of `b` that were not culled: its parents.
pub open spec fn bred_from(b: Population, picks: Seq<usize>, culled: (usize, usize), child: Individual) -> bool {
    forall|c: int| 0 <= c < child.chars@.len() ==> #[trigger] has_parent_bundle(b, picks, culled, child, c)
}

/// Character `c`'s bundle of `child` is within one mutation of that of a
/// pick of `b` that was not culled.
pub open spec fn has_parent_bundle(
    b: Population,
    picks: Seq<usize>,
    culled: (usize, usize),
    child: Individual,
    c: int,
) -> bool {
    exists|k: int|
        0 <= k < 4 && b.pop@[picks[k] as int].id != culled.0 && b.pop@[picks[k] as int].id != culled.1
            && #[trigger] within_one_mutation(b.pop@[picks[k] as int].chars@[c], child.chars@[c])
}

/// What one generation does, from `b` to `a`, on the four individuals at
/// the indices `picks` of `b` and the window center `(cx, cy)`: the two of
/// highest fitness among the four (ids `culled`) leave, the ids `b.counter`
/// and `b.counter + 1` arrive in the window around the center, clamped to
/// the space, and every other individual stays as it was.
pub open spec fn generation_step(
    b: Population,
    a: Population,
    culled: (usize, usize),
    picks: Seq<usize>,
    cx: int,
    cy: int,
) -> bool {
    &&& a.wf()
    &&& a.pop@.len() == b.pop@.len()
    &&& a.counter == b.counter + 2
    &&& a.rankings == b.rankings
    &&& a.x_axis == b.x_axis
    &&& a.y_axis == b.y_axis
    &&& a.half_width == b.half_width
    &&& picks.len() == 4
    &&& forall|k: int| 0 <= k < 4 ==> #[trigger] picks[k] < b.pop@.len()
    &&& forall|k: int, l: int| 0 <= k < l < 4 ==> picks[k] != picks[l]
    &&& culled.0 != culled.1
    &&& exists|k1: int, k2: int|
        0 <= k1 < 4 && 0 <= k2 < 4 && k1 != k2 && b.pop@[picks[k1] as int].id == culled.0
            && b.pop@[picks[k2] as int].id == culled.1 && forall|k: int|
            0 <= k < 4 && k != k1 && k != k2 ==> b.pop@[picks[k] as int].fitness
                <= b.pop@[picks[k1] as int].fitness && b.pop@[picks[k] as int].fitness
                <= b.pop@[picks[k2] as int].fitness
    &&& forall|x: usize|
        has_id(a.pop@, x) <==> (has_id(b.pop@, x) && x != culled.0 && x != culled.1) || x
            == b.counter || x == b.counter + 1
    &&& forall|i: int|
        0 <= i < a.pop@.len() && (#[trigger] a.pop@[i]).id < b.counter ==> has_member(b.pop@, a.pop@[i])
    &&& forall|i: int|
        0 <= i < a.pop@.len() && (#[trigger] a.pop@[i]).id >= b.counter ==> dist(a.pop@[i].x as int, cx)
            <= a.half_width && dist(a.pop@[i].y as int, cy) <= a.half_width && bred_from(
            b,
            picks,
            culled,
            a.pop@[i],
        )
}

impl Population {
    /// At least four individuals, and a window that spans both axes: every
    /// window then holds every individual.
    pub open spec fn dense(&self) -> bool {
        &&& self.pop@.len() >= 4
        &&& 2 * self.half_width + 1 >= self.x_axis
        &&& 2 * self.half_width + 1 >= self.y_axis
    }

    /// Every individual is well formed and placed in the space, no two share
    /// an id, and every id is below the counter.
    pub open spec fn wf(&self) -> bool {
        &&& self.rankings.wf()
        &&& 1 <= self.x_axis <= MAX_EXTENT
        &&& 1 <= self.y_axis <= MAX_EXTENT
        &&& 0 <= self.half_width <= MAX_EXTENT
        &&& self.members_ok()
        &&& self.placed()
        &&& self.ids_ok()
    }

    pub open spec fn members_ok(&self) -> bool {
        all_wf(self.pop@, self.rankings)
    }

    pub open spec fn placed(&self) -> bool {
        all_placed(self.pop@, self.x_axis, self.y_axis)
    }

    /// No two individuals share an id, and every id is below the counter.
    pub open spec fn ids_ok(&self) -> bool {
        ids_below(self.pop@, self.counter)
    }

    /// Individual `ind` lies in the window around `(cx, cy)`.
    pub open spec fn in_window(&self, ind: Individual, cx: int, cy: int) -> bool {
        near_spec(ind.x as int, cx, self.half_width as int, self.x_axis as int) && near_spec(
            ind.y as int,
            cy,
            self.half_width as int,
            self.y_axis as int,
        )
    }

    /// The indices, in increasing order, of the individuals in the window
    /// around `(cx, cy)`.
    pub fn window_members(&self, cx: i32, cy: i32) -> (r: Vec<usize>)
        requires
            self.wf(),
            0 <= cx < self.x_axis,
            0 <= cy < self.y_axis,
        ensures
            forall|k: int| 0 <= k < r@.len() ==> #[trigger] r@[k] < self.pop@.len(),
            forall|k: int| 0 <= k < r@.len() ==> self.in_window(self.pop@[#[trigger] r@[k] as int], cx as int, cy as int),
            forall|i: int| 0 <= i < self.pop@.len() && self.in_window(self.pop@[i], cx as int, cy as int) ==> r@.contains(i as usize),
            forall|k: int, l: int| 0 <= k < l < r@.len() ==> r@[k] < r@[l],
            (forall|i: int| 0 <= i < self.pop@.len() ==> self.in_window(#[trigger] self.pop@[i], cx as int, cy as int))
                ==> r@.len() == self.pop@.len(),
    {
        let mut r: Vec<usize> = Vec::new();
        let mut i: usize = 0;
        while i < self.pop.len()
            invariant
                self.placed(),
                0 <= self.half_width,
                0 <= cx < self.x_axis,
                0 <= cy < self.y_axis,
                i <= self.pop@.len(),
                forall|k: int| 0 <= k < r@.len() ==> #[trigger] r@[k] < i,
                forall|k: int| 0 <= k < r@.len() ==> self.in_window(self.pop@[#[trigger] r@[k] as int], cx as int, cy as int),
                forall|j: int| 0 <= j < i && self.in_window(self.pop@[j], cx as int, cy as int) ==> r@.contains(j as usize),
                forall|k: int, l: int| 0 <= k < l < r@.len() ==> r@[k] < r@[l],
                (forall|j: int| 0 <= j < i ==> self.in_window(#[trigger] self.pop@[j], cx as int, cy as int))
                    ==> r@.len() == i,
            decreases self.pop@.len() - i,
        {
            let ind = &self.pop[i];
            assert(0 <= ind.x < self.x_axis && 0 <= ind.y < self.y_axis);
            if near(ind.x, cx, self.half_width, self.x_axis) && near(ind.y, cy, self.half_width, self.y_axis) {
                let ghost r0 = r@;
                r.push(i);
                assert(r@[r@.len() - 1] == i);
                assert forall|j: int| 0 <= j < i + 1 && self.in_window(self.pop@[j], cx as int, cy as int) implies r@.contains(j as usize) by {
                    if j < i {
                        let k = choose|k: int| 0 <= k < r0.len() && r0[k] == j as usize;
                        assert(r@[k] == j as usize);
                    } else {
                        assert(r@[r@.len() - 1] == j as usize);
                    }
                }
            }
            i += 1;
        }
        r
    }
}


/// The positions of the two highest of four fitness values: `r.0` holds the
/// highest and `r.1` the next; each other value is at most both.
pub fn worst_two(f: &[i32; 4]) -> (r: (usize, usize))
    ensures
        r.0 < 4,
        r.1 < 4,
        r.0 != r.1,
        f[r.1 as int] <= f[r.0 as int],
        forall|k: int| 0 <= k < 4 && k != r.0 && k != r.1 ==> #[trigger] f[k] <= f[r.1 as int],
{
    let mut w1: usize = 0;
    let mut k: usize = 1;
    while k < 4
        invariant
            w1 < k <= 4,
            forall|j: int| 0 <= j < k ==> #[trigger] f[j] <= f[w1 as int],
        decreases 4 - k,
    {
        if f[k] >= f[w1] {
            w1 = k;
        }
        k += 1;
    }
    let mut w2: usize = if w1 == 0 { 1 } else { 0 };
    let mut k: usize = 0;
    while k < 4
        invariant
            w1 < 4,
            w2 < 4,
            w2 != w1,
            k <= 4,
            forall|j: int| 0 <= j < 4 ==> #[trigger] f[j] <= f[w1 as int],
            forall|j: int| 0 <= j < k && j != w1 ==> #[trigger] f[j] <= f[w2 as int],
        decreases 4 - k,
    {
        if k != w1 && f[k] >= f[w2] {
            w2 = k;
        }
        k += 1;
    }
    (w1, w2)
}

/// A random coordinate within `hw` of `c`, clamped (not wrapped) to
/// `0..ext`.
fn place_near(c: i32, hw: i32, ext: i32, rng: &mut StdRng) -> (r: i32)
    requires
        0 <= c < ext <= MAX_EXTENT,
        0 <= hw <= MAX_EXTENT,
    ensures
        0 <= r < ext,
        dist(r as int, c as int) <= hw,
{
    let lo: i32 = if c >= hw { c - hw } else { 0 };
    let hi: i32 = if c + hw <= ext - 1 { c + hw } else { ext - 1 };
    let k = gen_index(rng, (hi - lo) as usize + 1);
    lo + k as i32
}

impl Population {
    /// Removes the individual with id `id`.
    pub fn cull(&mut self, id: usize)
        requires
            old(self).wf(),
            has_id(old(self).pop@, id),
        ensures
            final(self).wf(),
            exists|i: int|
                0 <= i < old(self).pop@.len() && old(self).pop@[i].id == id && final(self).pop@
                    == old(self).pop@.remove(i),
            forall|x: usize| has_id(final(self).pop@, x) <==> has_id(old(self).pop@, x) && x != id,
            final(self).pop@.len() == old(self).pop@.len() - 1,
            final(self).rankings == old(self).rankings,
            final(self).x_axis == old(self).x_axis,
            final(self).y_axis == old(self).y_axis,
            final(self).half_width == old(self).half_width,
            final(self).counter == old(self).counter,
    {
        let mut i: usize = 0;
        while i < self.pop.len()
            invariant
                self.wf(),
                has_id(self.pop@, id),
                *self == *old(self),
                i <= self.pop@.len(),
                forall|k: int| 0 <= k < i ==> (#[trigger] self.pop@[k]).id != id,
            decreases self.pop@.len() - i,
        {
            if self.pop[i].id == id {
                proof {
                    lemma_remove(self.pop@, i as int, self.rankings, self.x_axis, self.y_axis, self.counter);
                }
                self.pop.remove(i);
                return;
            }
            i += 1;
        }
        assert(false);
    }

    /// One generation on four chosen individuals, given by their indices in
    /// `picks`: the two of highest fitness are culled, and the two others
    /// breed two children placed in the window around `(cx, cy)`. Returns
    /// the ids of the two culled individuals.
    #[verifier::rlimit(40)]
    pub fn advance(&mut self, picks: &Vec<usize>, cx: i32, cy: i32, rng: &mut StdRng) -> (r: (usize, usize))
        requires
            old(self).wf(),
            picks@.len() == 4,
            forall|k: int| 0 <= k < 4 ==> #[trigger] picks@[k] < old(self).pop@.len(),
            forall|k: int, l: int| 0 <= k < l < 4 ==> picks@[k] != picks@[l],
            old(self).counter <= usize::MAX - 2,
            0 <= cx < old(self).x_axis,
            0 <= cy < old(self).y_axis,
        ensures
            final(self).wf(),
            final(self).pop@.len() == old(self).pop@.len(),
            final(self).counter == old(self).counter + 2,
            final(self).rankings == old(self).rankings,
            final(self).x_axis == old(self).x_axis,
            final(self).y_axis == old(self).y_axis,
            final(self).half_width == old(self).half_width,
            generation_step(*old(self), *final(self), r, picks@, cx as int, cy as int),
    {
        let ghost old_pop = self.pop@;
        let f: [i32; 4] = [
            self.pop[picks[0]].fitness,
            self.pop[picks[1]].fitness,
            self.pop[picks[2]].fitness,
            self.pop[picks[3]].fitness,
        ];
        let (w1, w2) = worst_two(&f);
        let p1: usize = if w1 != 0 && w2 != 0 {
            0
        } else if w1 != 1 && w2 != 1 {
            1
        } else {
            2
        };
        let p2: usize = if w1 != 3 && w2 != 3 {
            3
        } else if w1 != 2 && w2 != 2 {
            2
        } else {
            1
        };
        assert(p1 != p2 && p1 != w1 && p1 != w2 && p2 != w1 && p2 != w2);
        let (pa, pb) = if f[p2] < f[p1] { (picks[p2], picks[p1]) } else { (picks[p1], picks[p2]) };
        let ghost ka: int = if f[p2 as int] < f[p1 as int] { p2 as int } else { p1 as int };
        let ghost kb: int = if f[p2 as int] < f[p1 as int] { p1 as int } else { p2 as int };
        assert(picks@[ka] == pa && picks@[kb] == pb && ka != w1 && ka != w2 && kb != w1 && kb != w2);
        assert(self.pop@[pa as int].wf(self.rankings) && self.pop@[pb as int].wf(self.rankings));
        let x0 = place_near(cx, self.half_width, self.x_axis, rng);
        let y0 = place_near(cy, self.half_width, self.y_axis, rng);
        let c0 = Individual::breed(&self.pop[pa], &self.pop[pb], x0, y0, self.counter, &self.rankings, rng);
        let x1 = place_near(cx, self.half_width, self.x_axis, rng);
        let y1 = place_near(cy, self.half_width, self.y_axis, rng);
        let c1 = Individual::breed(&self.pop[pa], &self.pop[pb], x1, y1, self.counter + 1, &self.rankings, rng);
        let id1 = self.pop[picks[w1]].id;
        let id2 = self.pop[picks[w2]].id;
        assert(id1 != id2);
        assert(self.pop@[pa as int].id != id1 && self.pop@[pa as int].id != id2 && self.pop@[pb as int].id
            != id1 && self.pop@[pb as int].id != id2) by {
            assert(picks@[ka] != picks@[w1 as int] && picks@[ka] != picks@[w2 as int]);
            assert(picks@[kb] != picks@[w1 as int] && picks@[kb] != picks@[w2 as int]);
        }
        proof {
            assert(old(self).pop@[picks@[ka] as int] == self.pop@[pa as int]);
            assert(old(self).pop@[picks@[kb] as int] == self.pop@[pb as int]);
            lemma_bred_from(*old(self), picks@, (id1, id2), c0, ka, kb);
        }
        proof {
            assert(old(self).pop@[picks@[ka] as int] == self.pop@[pa as int]);
            assert(old(self).pop@[picks@[kb] as int] == self.pop@[pb as int]);
            lemma_bred_from(*old(self), picks@, (id1, id2), c1, ka, kb);
        }
        assert(has_id(self.pop@, id1) && has_id(self.pop@, id2));
        let ghost s0 = self.pop@;
        let ghost counter0 = self.counter;
        assert(s0 == old(self).pop@ && counter0 == old(self).counter);
        self.cull(id1);
        let ghost s1 = self.pop@;
        self.cull(id2);
        let ghost s2 = self.pop@;
        proof {
            lemma_remove_members(s0, s1);
            lemma_remove_members(s1, s2);
            assert forall|k: int| 0 <= k < s2.len() implies has_member(s0, #[trigger] s2[k]) by {
                let j = choose|j: int| 0 <= j < s1.len() && #[trigger] s1[j] == s2[k];
                assert(has_member(s0, s1[j]));
            }
        }
        proof {
            lemma_push(self.pop@, c0, self.rankings, self.x_axis, self.y_axis, self.counter);
        }
        self.pop.push(c0);
        self.counter = self.counter + 1;
        proof {
            lemma_push(self.pop@, c1, self.rankings, self.x_axis, self.y_axis, self.counter);
        }
        self.pop.push(c1);
        self.counter = self.counter + 1;
        assert(forall|k: int| 0 <= k < 4 && k != w1 && k != w2 ==> #[trigger] f[k] <= f[w1 as int] && f[k] <= f[w2 as int]);
        assert(old_pop[picks@[w1 as int] as int].id == id1);
        let ghost s3 = s2.push(c0);
        assert(self.pop@ == s3.push(c1));
        assert forall|x: usize|
            has_id(self.pop@, x) <==> (has_id(old(self).pop@, x) && x != id1 && x != id2) || x
                == old(self).counter || x == old(self).counter + 1 by {
            assert(has_id(s1, x) <==> has_id(s0, x) && x != id1);
            assert(has_id(s2, x) <==> has_id(s1, x) && x != id2);
            assert(has_id(s3, x) <==> has_id(s2, x) || x == counter0);
            assert(has_id(self.pop@, x) <==> has_id(s3, x) || x == counter0 + 1);
        }
        assert forall|i: int|
            0 <= i < self.pop@.len() && (#[trigger] self.pop@[i]).id < counter0 implies has_member(
            s0,
            self.pop@[i],
        ) by {
            if i >= s2.len() {
                assert(self.pop@[i] == c0 || self.pop@[i] == c1);
            } else {
                assert(self.pop@[i] == s2[i]);
            }
        }
        assert forall|i: int|
            0 <= i < self.pop@.len() && (#[trigger] self.pop@[i]).id >= counter0 implies dist(
            self.pop@[i].x as int,
            cx as int,
        ) <= self.half_width && dist(self.pop@[i].y as int, cy as int) <= self.half_width by {
            if i < s2.len() {
                assert(self.pop@[i] == s2[i]);
                assert(s2[i].id < counter0);
            } else if i == s2.len() {
                assert(self.pop@[i] == c0);
            } else {
                assert(self.pop@[i] == c1);
            }
        }
        (id1, id2)
    }
}

impl Population {
    /// `size` new individuals with ids `0..size`, each at a random position
    /// of an `x_axis` by `y_axis` space, with selection windows of
    /// half-width `half_width`.
    pub fn with_space(
        rankings: Rankings,
        size: usize,
        x_axis: i32,
        y_axis: i32,
        half_width: i32,
        rng: &mut StdRng,
    ) -> (r: Population)
        requires
            rankings.wf(),
            1 <= x_axis <= MAX_EXTENT,
            1 <= y_axis <= MAX_EXTENT,
            0 <= half_width <= MAX_EXTENT,
        ensures
            r.wf(),
            r.pop@.len() == size,
            r.counter == size,
            forall|i: int| 0 <= i < size ==> (#[trigger] r.pop@[i]).id == i,
            r.rankings == rankings,
            r.x_axis == x_axis,
            r.y_axis == y_axis,
            r.half_width == half_width,
    {
        let mut pop: Vec<Individual> = Vec::new();
        let mut counter: usize = 0;
        while counter < size
            invariant
                rankings.wf(),
                1 <= x_axis <= MAX_EXTENT,
                1 <= y_axis <= MAX_EXTENT,
                counter <= size,
                pop@.len() == counter,
                all_wf(pop@, rankings),
                all_placed(pop@, x_axis, y_axis),
                ids_below(pop@, counter),
                forall|i: int| 0 <= i < counter ==> (#[trigger] pop@[i]).id == i,
            decreases size - counter,
        {
            let x = gen_index(rng, x_axis as usize) as i32;
            let y = gen_index(rng, y_axis as usize) as i32;
            let ind = Individual::new(x, y, counter, &rankings, rng);
            proof {
                lemma_push(pop@, ind, rankings, x_axis, y_axis, counter);
            }
            pop.push(ind);
            counter += 1;
        }
        Population { pop, x_axis, y_axis, half_width, rankings, counter }
    }

    /// `size` new individuals in the default space: 1000 by 1000, windows of
    /// half-width 50.
    pub fn new(rankings: Rankings, size: usize, rng: &mut StdRng) -> (r: Population)
        requires
            rankings.wf(),
        ensures
            r.wf(),
            r.pop@.len() == size,
            r.counter == size,
            forall|i: int| 0 <= i < size ==> (#[trigger] r.pop@[i]).id == i,
            r.rankings == rankings,
            r.x_axis == DEFAULT_EXTENT,
            r.y_axis == DEFAULT_EXTENT,
            r.half_width == DEFAULT_HALF_WIDTH,
    {
        Population::with_space(rankings, size, DEFAULT_EXTENT, DEFAULT_EXTENT, DEFAULT_HALF_WIDTH, rng)
    }

    /// One generation: up to `MAX_ATTEMPTS` random window centers are tried
    /// until a window holds at least four individuals; four of them, drawn
    /// at random, go through `advance`. Returns the ids of the two culled
    /// individuals, or `None`, with the population untouched, when every
    /// window tried was too sparse.
    pub fn run_generation(&mut self, rng: &mut StdRng) -> (r: Option<Generation>)
        requires
            old(self).wf(),
            old(self).counter <= usize::MAX - 2,
        ensures
            final(self).wf(),
            final(self).pop@.len() == old(self).pop@.len(),
            final(self).rankings == old(self).rankings,
            final(self).x_axis == old(self).x_axis,
            final(self).y_axis == old(self).y_axis,
            final(self).half_width == old(self).half_width,
            r.is_none() ==> *final(self) == *old(self),
            old(self).dense() ==> r.is_some(),
            r.is_some() ==> {
                let g = r.unwrap();
                &&& 0 <= g.center_x < old(self).x_axis
                &&& 0 <= g.center_y < old(self).y_axis
                &&& generation_step(*old(self), *final(self), g.culled, g.picks@, g.center_x as int, g.center_y as int)
                &&& forall|k: int| 0 <= k < 4 ==> old(self).in_window(
                    old(self).pop@[#[trigger] g.picks@[k] as int],
                    g.center_x as int,
                    g.center_y as int,
                )
            },
    {
        let mut attempt: usize = 0;
        while attempt < MAX_ATTEMPTS
            invariant
                self.wf(),
                *self == *old(self),
                self.counter <= usize::MAX - 2,
                old(self).dense() ==> attempt == 0,
            decreases MAX_ATTEMPTS - attempt,
        {
            let cx = gen_index(rng, self.x_axis as usize) as i32;
            let cy = gen_index(rng, self.y_axis as usize) as i32;
            let members = self.window_members(cx, cy);
            proof {
                if self.dense() {
                    assert forall|i: int| 0 <= i < self.pop@.len() implies self.in_window(
                        #[trigger] self.pop@[i],
                        cx as int,
                        cy as int,
                    ) by {
                        lemma_near_when_wide(self.pop@[i].x as int, cx as int, self.half_width as int, self.x_axis as int);
                        lemma_near_when_wide(self.pop@[i].y as int, cy as int, self.half_width as int, self.y_axis as int);
                    }
                }
            }
            if members.len() >= 4 {
                let sel = sample_distinct(rng, members.len(), 4);
                let mut picks: Vec<usize> = Vec::new();
                let mut k: usize = 0;
                while k < 4
                    invariant
                        k <= 4,
                        sel@.len() == 4,
                        forall|j: int| 0 <= j < 4 ==> #[trigger] sel@[j] < members@.len(),
                        picks@.len() == k,
                        forall|j: int| 0 <= j < k ==> #[trigger] picks@[j] == members@[sel@[j] as int],
                    decreases 4 - k,
                {
                    picks.push(members[sel[k]]);
                    k += 1;
                }
                assert forall|a: int, b: int| 0 <= a < b < 4 implies picks@[a] != picks@[b] by {
                    let (sa, sb) = (sel@[a] as int, sel@[b] as int);
                    assert(sa != sb);
                    if sa < sb {
                        assert(members@[sa] < members@[sb]);
                    } else {
                        assert(members@[sb] < members@[sa]);
                    }
                }
                assert(forall|j: int| 0 <= j < 4 ==> #[trigger] picks@[j] < self.pop@.len());
                assert forall|k: int| 0 <= k < 4 implies self.in_window(
                    self.pop@[#[trigger] picks@[k] as int],
                    cx as int,
                    cy as int,
                ) by {
                    assert(picks@[k] == members@[sel@[k] as int]);
                }
                let culled = self.advance(&picks, cx, cy, rng);
                return Some(Generation { center_x: cx, center_y: cy, picks, culled });
            }
            attempt += 1;
        }
        None
    }
}

impl Population {
    /// Runs `gens` generations, one after the other. Each keeps the
    /// population's size and gives out two new ids; it stops with
    /// `InsufficientDensity` at the first generation that finds no window
    /// dense enough, the generations before it kept.
    pub fn run(&mut self, gens: usize, rng: &mut StdRng) -> (r: Result<(), RunError>)
        requires
            old(self).wf(),
            old(self).counter + 2 * gens <= usize::MAX,
        ensures
            final(self).wf(),
            final(self).pop@.len() == old(self).pop@.len(),
            final(self).rankings == old(self).rankings,
            final(self).x_axis == old(self).x_axis,
            final(self).y_axis == old(self).y_axis,
            final(self).half_width == old(self).half_width,
            r.is_ok() ==> final(self).counter == old(self).counter + 2 * gens,
            old(self).counter <= final(self).counter <= old(self).counter + 2 * gens,
            forall|x: usize|
                has_id(final(self).pop@, x) ==> has_id(old(self).pop@, x) || (old(self).counter <= x
                    && x < final(self).counter),
            forall|i: int|
                0 <= i < final(self).pop@.len() && (#[trigger] final(self).pop@[i]).id < old(self).counter
                    ==> has_member(old(self).pop@, final(self).pop@[i]),
            forall|i: int, c: int|
                0 <= i < final(self).pop@.len() && 0 <= c < final(self).pop@[i].chars@.len() ==> bundle_ok(
                    #[trigger] final(self).pop@[i].chars@[c],
                ),
            gens == 0 ==> r.is_ok() && *final(self) == *old(self),
            old(self).dense() ==> r.is_ok(),
            gens == 1 && r.is_ok() ==> exists|c: (usize, usize), p: Seq<usize>, cx: int, cy: int|
                generation_step(*old(self), *final(self), c, p, cx, cy) && 0 <= cx < old(self).x_axis
                    && 0 <= cy < old(self).y_axis && forall|k: int|
                    0 <= k < 4 ==> old(self).in_window(old(self).pop@[#[trigger] p[k] as int], cx, cy),
    {
        let mut g: usize = 0;
        while g < gens
            invariant
                self.wf(),
                g <= gens,
                self.counter == old(self).counter + 2 * g,
                old(self).counter + 2 * gens <= usize::MAX,
                self.pop@.len() == old(self).pop@.len(),
                self.rankings == old(self).rankings,
                self.x_axis == old(self).x_axis,
                self.y_axis == old(self).y_axis,
                self.half_width == old(self).half_width,
                forall|x: usize|
                    has_id(self.pop@, x) ==> has_id(old(self).pop@, x) || (old(self).counter <= x
                        && x < self.counter),
                forall|i: int|
                    0 <= i < self.pop@.len() && (#[trigger] self.pop@[i]).id < old(self).counter
                        ==> has_member(old(self).pop@, self.pop@[i]),
                g == 0 ==> *self == *old(self),
                g == 1 ==> exists|c: (usize, usize), p: Seq<usize>, cx: int, cy: int|
                    generation_step(*old(self), *self, c, p, cx, cy) && 0 <= cx < old(self).x_axis
                        && 0 <= cy < old(self).y_axis && forall|k: int|
                        0 <= k < 4 ==> old(self).in_window(old(self).pop@[#[trigger] p[k] as int], cx, cy),
            decreases gens - g,
        {
            let ghost before = self.pop@;
            let ghost before_all = *self;
            let ghost c0 = self.counter;
            assert(self.dense() == old(self).dense());
            match self.run_generation(rng) {
                None => {
                    proof {
                        lemma_all_bundles_ok(*self);
                    }
                    return Err(RunError::InsufficientDensity);
                },
                Some(gen) => {
                    proof {
                        if g == 0 {
                            assert(generation_step(*old(self), *self, gen.culled, gen.picks@, gen.center_x as int, gen.center_y as int));
                        }
                    }
                },
            }
            assert forall|i: int|
                0 <= i < self.pop@.len() && (#[trigger] self.pop@[i]).id < old(self).counter implies has_member(
                old(self).pop@,
                self.pop@[i],
            ) by {
                assert(self.pop@[i].id < c0);
                assert(has_member(before, self.pop@[i]));
                let j = choose|j: int| 0 <= j < before.len() && #[trigger] before[j] == self.pop@[i];
                assert(before_all.pop@[j] == self.pop@[i]);
            }
            assert forall|x: usize| has_id(self.pop@, x) implies has_id(old(self).pop@, x) || (old(
                self,
            ).counter <= x && x < self.counter) by {
                assert(has_id(before, x) || x == c0 || x == c0 + 1);
            }
            g += 1;
        }
        proof {
            lemma_all_bundles_ok(*self);
        }
        Ok(())
    }

    /// The index of an individual of lowest fitness, the first such; `None`
    /// for an empty population.
    pub fn best_index(&self) -> (r: Option<usize>)
        ensures
            r.is_none() <==> self.pop@.len() == 0,
            r.is_some() ==> r.unwrap() < self.pop@.len() && forall|i: int|
                0 <= i < self.pop@.len() ==> self.pop@[r.unwrap() as int].fitness <= #[trigger] self.pop@[i].fitness,
    {
        if self.pop.len() == 0 {
            return None;
        }
        let mut best: usize = 0;
        let mut i: usize = 1;
        while i < self.pop.len()
            invariant
                best < i <= self.pop@.len(),
                forall|j: int| 0 <= j < i ==> self.pop@[best as int].fitness <= #[trigger] self.pop@[j].fitness,
            decreases self.pop@.len() - i,
        {
            if self.pop[i].fitness < self.pop[best].fitness {
                best = i;
            }
            i += 1;
        }
        Some(best)
    }
}

proof fn lemma_all_bundles_ok(p: Population)
    requires
        p.wf(),
    ensures
        forall|i: int, c: int|
            0 <= i < p.pop@.len() && 0 <= c < p.pop@[i].chars@.len() ==> bundle_ok(#[trigger] p.pop@[i].chars@[c]),
{
    assert forall|i: int, c: int| 0 <= i < p.pop@.len() && 0 <= c < p.pop@[i].chars@.len() implies bundle_ok(
        #[trigger] p.pop@[i].chars@[c],
    ) by {
        assert(p.pop@[i].wf(p.rankings));
    }
}

proof fn lemma_bred_from(b: Population, picks: Seq<usize>, culled: (usize, usize), child: Individual, ka: int, kb: int)
    requires
        0 <= ka < 4,
        0 <= kb < 4,
        picks.len() == 4,
        forall|k: int| 0 <= k < 4 ==> #[trigger] picks[k] < b.pop@.len(),
        b.pop@[picks[ka] as int].id != culled.0 && b.pop@[picks[ka] as int].id != culled.1,
        b.pop@[picks[kb] as int].id != culled.0 && b.pop@[picks[kb] as int].id != culled.1,
        forall|c: int|
            0 <= c < child.chars@.len() ==> within_one_mutation(b.pop@[picks[ka] as int].chars@[c], #[trigger] child.chars@[c])
                || within_one_mutation(b.pop@[picks[kb] as int].chars@[c], child.chars@[c]),
    ensures
        bred_from(b, picks, culled, child),
{
    assert forall|c: int| 0 <= c < child.chars@.len() implies #[trigger] has_parent_bundle(b, picks, culled, child, c) by {
        assert(within_one_mutation(b.pop@[picks[ka] as int].chars@[c], child.chars@[c])
            || within_one_mutation(b.pop@[picks[kb] as int].chars@[c], child.chars@[c]));
        if within_one_mutation(b.pop@[picks[ka] as int].chars@[c], child.chars@[c]) {
            assert(within_one_mutation(b.pop@[picks[ka] as int].chars@[c], child.chars@[c]));
        } else {
            assert(within_one_mutation(b.pop@[picks[kb] as int].chars@[c], child.chars@[c]));
        }
    }
}

/// Every individual left after a removal was there before, unchanged.
proof fn lemma_remove_members(s: Seq<Individual>, t: Seq<Individual>)
    requires
        exists|i: int| 0 <= i < s.len() && t == s.remove(i),
    ensures
        forall|k: int| 0 <= k < t.len() ==> has_member(s, #[trigger] t[k]),
{
    let i = choose|i: int| 0 <= i < s.len() && t == s.remove(i);
    assert forall|k: int| 0 <= k < t.len() implies has_member(s, #[trigger] t[k]) by {
        if k < i {
            assert(s[k] == t[k]);
        } else {
            assert(s[k + 1] == t[k]);
        }
    }
}

/// A window at least as wide as the axis holds every position of it.
pub proof fn lemma_near_when_wide(p: int, c: int, hw: int, ext: int)
    requires
        0 <= p < ext,
        0 <= c < ext,
        2 * hw + 1 >= ext,
    ensures
        near_spec(p, c, hw, ext),
{
}

proof fn lemma_remove(s: Seq<Individual>, i: int, rk: Rankings, xa: i32, ya: i32, counter: usize)
    requires
        0 <= i < s.len(),
        all_wf(s, rk),
        all_placed(s, xa, ya),
        ids_below(s, counter),
    ensures
        all_wf(s.remove(i), rk),
        all_placed(s.remove(i), xa, ya),
        ids_below(s.remove(i), counter),
        forall|x: usize| has_id(s.remove(i), x) <==> has_id(s, x) && x != s[i].id,
        s.remove(i).len() == s.len() - 1,
{
    let t = s.remove(i);
    assert forall|k: int| 0 <= k < t.len() implies (#[trigger] t[k]).wf(rk) by {
        if k < i { assert(t[k] == s[k]); } else { assert(t[k] == s[k + 1]); }
    }
    assert forall|k: int| 0 <= k < t.len() implies 0 <= (#[trigger] t[k]).x < xa && 0 <= t[k].y < ya by {
        if k < i { assert(t[k] == s[k]); } else { assert(t[k] == s[k + 1]); }
    }
    assert forall|k: int| 0 <= k < t.len() implies (#[trigger] t[k]).id < counter by {
        if k < i { assert(t[k] == s[k]); } else { assert(t[k] == s[k + 1]); }
    }
    assert forall|k: int, l: int| 0 <= k < l < t.len() implies #[trigger] t[k].id != #[trigger] t[l].id by {
        let k2 = if k < i { k } else { k + 1 };
        let l2 = if l < i { l } else { l + 1 };
        assert(t[k] == s[k2] && t[l] == s[l2]);
    }
    assert forall|x: usize| has_id(t, x) <==> has_id(s, x) && x != s[i].id by {
        if has_id(t, x) {
            let k = choose|k: int| 0 <= k < t.len() && #[trigger] t[k].id == x;
            let k2 = if k < i { k } else { k + 1 };
            assert(t[k] == s[k2]);
            assert(s[k2].id == x);
        }
        if has_id(s, x) && x != s[i].id {
            let k = choose|k: int| 0 <= k < s.len() && #[trigger] s[k].id == x;
            let k2 = if k < i { k } else { k - 1 };
            assert(t[k2] == s[k]);
            assert(t[k2].id == x);
        }
    }
}

proof fn lemma_push(s: Seq<Individual>, c: Individual, rk: Rankings, xa: i32, ya: i32, counter: usize)
    requires
        all_wf(s, rk),
        all_placed(s, xa, ya),
        ids_below(s, counter),
        c.wf(rk),
        0 <= c.x < xa,
        0 <= c.y < ya,
        c.id == counter,
        counter < usize::MAX,
    ensures
        all_wf(s.push(c), rk),
        all_placed(s.push(c), xa, ya),
        ids_below(s.push(c), (counter + 1) as usize),
        forall|x: usize| has_id(s.push(c), x) <==> has_id(s, x) || x == c.id,
{
    let t = s.push(c);
    assert(forall|k: int| 0 <= k < s.len() ==> #[trigger] t[k] == s[k]);
    assert(t[s.len() as int] == c);
    assert forall|k: int| 0 <= k < t.len() implies (#[trigger] t[k]).wf(rk) by {
        if k < s.len() { assert(t[k] == s[k]); }
    }
    assert forall|k: int, l: int| 0 <= k < l < t.len() implies #[trigger] t[k].id != #[trigger] t[l].id by {
        if l < s.len() {
            assert(t[k] == s[k] && t[l] == s[l]);
        } else {
            assert(t[k] == s[k]);
            assert(s[k].id < counter);
        }
    }
    assert forall|x: usize| has_id(t, x) <==> has_id(s, x) || x == c.id by {
        if has_id(t, x) {
            let k = choose|k: int| 0 <= k < t.len() && #[trigger] t[k].id == x;
            if k < s.len() {
                assert(s[k].id == x);
            }
        }
        if has_id(s, x) {
            let k = choose|k: int| 0 <= k < s.len() && #[trigger] s[k].id == x;
            assert(t[k].id == x);
        }
        if x == c.id {
            assert(t[s.len() as int].id == x);
        }
    }
}

} // verus!
