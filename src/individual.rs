//! An individual: one full set of character bundles, its fitness and its
//! place in the coordinate space.
use crate::bundle::{
    CharacterBundle, bundle_ok, default_bundle, default_bundle_spec, mutate_bundle, within_one_mutation,
};
use crate::random::gen_ratio;
use crate::rankings::Rankings;
use crate::score::{fitness_exec, fitness_of};
use rand::rngs::StdRng;
use vstd::prelude::*;

verus! {

/// Every bundle meets the bundle invariants.
pub open spec fn all_ok(chars: Seq<CharacterBundle>) -> bool {
    forall|c: int| 0 <= c < chars.len() ==> bundle_ok(#[trigger] chars[c])
}

/// The default bundles of `n` characters.
pub open spec fn default_chars(n: nat) -> Seq<CharacterBundle> {
    Seq::new(n, |c: int| default_bundle_spec())
}

/// The bundles of a crossover: character `c` comes whole from `a` where
/// `picks[c]` holds, and from `b` otherwise.
pub open spec fn crossover_spec(a: Seq<CharacterBundle>, b: Seq<CharacterBundle>, picks: Seq<bool>) -> Seq<
    CharacterBundle,
> {
    Seq::new(a.len(), |c: int| if picks[c] { a[c] } else { b[c] })
}

/// The fitness an individual holds before it is first scored: the worst.
pub const UNSCORED: i32 = i32::MAX;

#[derive(Clone, Debug)]
pub struct Individual {
    pub id: usize,
    pub fitness: i32,
    pub x: i32,
    pub y: i32,
    /// The bundle of each character, indexed as in the rankings.
    pub chars: Vec<CharacterBundle>,
}

/// Takes each character's bundle whole from `a` or `b` as `picks` says.
pub fn crossover(a: &Vec<CharacterBundle>, b: &Vec<CharacterBundle>, picks: &Vec<bool>) -> (r: Vec<
    CharacterBundle,
>)
    requires
        a@.len() == b@.len(),
        picks@.len() == a@.len(),
    ensures
        r@ == crossover_spec(a@, b@, picks@),
{
    let mut r: Vec<CharacterBundle> = Vec::new();
    let mut c: usize = 0;
    while c < a.len()
        invariant
            a@.len() == b@.len(),
            picks@.len() == a@.len(),
            c <= a@.len(),
            r@ == crossover_spec(a@, b@, picks@).take(c as int),
        decreases a@.len() - c,
    {
        let bundle = if picks[c] {
            a[c]
        } else {
            b[c]
        };
        r.push(bundle);
        c += 1;
        assert(r@ =~= crossover_spec(a@, b@, picks@).take(c as int));
    }
    assert(r@ =~= crossover_spec(a@, b@, picks@));
    r
}

impl Individual {
    /// Holds a well-formed bundle for every character of the rankings, and
    /// its fitness is that of its bundles.
    pub open spec fn wf(&self, rk: Rankings) -> bool {
        &&& self.chars@.len() == rk.count()
        &&& all_ok(self.chars@)
        &&& self.fitness == fitness_of(self.chars@, rk)
    }

    /// An individual holding the default bundle for every character, scored
    /// and not mutated.
    pub fn unmutated(x: i32, y: i32, id: usize, rankings: &Rankings) -> (r: Individual)
        requires
            rankings.wf(),
        ensures
            r.chars@ == default_chars(rankings.count()),
            r.wf(*rankings),
            r.id == id,
            r.x == x,
            r.y == y,
    {
        let n = rankings.character_count();
        let mut chars: Vec<CharacterBundle> = Vec::new();
        let mut c: usize = 0;
        while c < n
            invariant
                c <= n,
                chars@ == default_chars(c as nat),
            decreases n - c,
        {
            chars.push(default_bundle());
            c += 1;
            assert(chars@ =~= default_chars(c as nat));
        }
        let mut ind = Individual { id, fitness: UNSCORED, x, y, chars };
        ind.score(rankings);
        ind
    }

    /// A new individual: the default bundles, mutated once, then scored.
    pub fn new(x: i32, y: i32, id: usize, rankings: &Rankings, rng: &mut StdRng) -> (r: Individual)
        requires
            rankings.wf(),
        ensures
            r.wf(*rankings),
            forall|c: int| 0 <= c < r.chars@.len() ==> within_one_mutation(default_bundle_spec(), #[trigger] r.chars@[c]),
            r.id == id,
            r.x == x,
            r.y == y,
    {
        let mut ind = Individual::unmutated(x, y, id, rankings);
        ind.mutate(rng);
        ind.score(rankings);
        ind
    }

    /// A child of two parents: each character's bundle taken whole from one
    /// parent or the other, chance 1/2 each, then mutated once and scored.
    pub fn breed(
        parent_a: &Individual,
        parent_b: &Individual,
        x: i32,
        y: i32,
        id: usize,
        rankings: &Rankings,
        rng: &mut StdRng,
    ) -> (r: Individual)
        requires
            rankings.wf(),
            parent_a.wf(*rankings),
            parent_b.wf(*rankings),
        ensures
            r.wf(*rankings),
            forall|c: int|
                0 <= c < r.chars@.len() ==> within_one_mutation(parent_a.chars@[c], #[trigger] r.chars@[c])
                    || within_one_mutation(parent_b.chars@[c], r.chars@[c]),
            r.id == id,
            r.x == x,
            r.y == y,
    {
        let n = parent_a.chars.len();
        let mut picks: Vec<bool> = Vec::new();
        let mut c: usize = 0;
        while c < n
            invariant
                c <= n,
                picks@.len() == c,
            decreases n - c,
        {
            picks.push(gen_ratio(rng, 1, 2));
            c += 1;
        }
        let chars = crossover(&parent_a.chars, &parent_b.chars, &picks);
        assert(all_ok(chars@)) by {
            assert forall|c: int| 0 <= c < chars@.len() implies bundle_ok(#[trigger] chars@[c]) by {
                assert(bundle_ok(parent_a.chars@[c]) && bundle_ok(parent_b.chars@[c]));
            }
        }
        let ghost crossed = chars@;
        let mut ind = Individual { id, fitness: UNSCORED, x, y, chars };
        ind.mutate(rng);
        ind.score(rankings);
        assert forall|c: int| 0 <= c < ind.chars@.len() implies within_one_mutation(
            parent_a.chars@[c],
            #[trigger] ind.chars@[c],
        ) || within_one_mutation(parent_b.chars@[c], ind.chars@[c]) by {
            assert(within_one_mutation(crossed[c], ind.chars@[c]));
        }
        ind
    }

    /// Mutates every character's bundle once.
    fn mutate(&mut self, rng: &mut StdRng)
        requires
            all_ok(old(self).chars@),
        ensures
            all_ok(final(self).chars@),
            final(self).chars@.len() == old(self).chars@.len(),
            final(self).id == old(self).id,
            final(self).x == old(self).x,
            final(self).y == old(self).y,
            final(self).fitness == old(self).fitness,
            forall|c: int|
                0 <= c < old(self).chars@.len() ==> within_one_mutation(
                    old(self).chars@[c],
                    #[trigger] final(self).chars@[c],
                ),
    {
        let mut c: usize = 0;
        while c < self.chars.len()
            invariant
                all_ok(self.chars@),
                self.chars@.len() == old(self).chars@.len(),
                self.id == old(self).id,
                self.x == old(self).x,
                self.y == old(self).y,
                self.fitness == old(self).fitness,
                c <= self.chars@.len(),
                forall|j: int| 0 <= j < c ==> within_one_mutation(old(self).chars@[j], #[trigger] self.chars@[j]),
                forall|j: int| c <= j < self.chars@.len() ==> #[trigger] self.chars@[j] == old(self).chars@[j],
            decreases self.chars@.len() - c,
        {
            let mut b = self.chars[c];
            assert(bundle_ok(b));
            mutate_bundle(&mut b, rng);
            self.chars[c] = b;
            c += 1;
        }
    }

    /// Sets the fitness to that of the bundles against the rankings.
    pub fn score(&mut self, rankings: &Rankings)
        requires
            rankings.wf(),
            old(self).chars@.len() == rankings.count(),
            all_ok(old(self).chars@),
        ensures
            final(self).wf(*rankings),
            final(self).fitness == fitness_of(old(self).chars@, *rankings),
            final(self).chars@ == old(self).chars@,
            final(self).id == old(self).id,
            final(self).x == old(self).x,
            final(self).y == old(self).y,
    {
        self.fitness = fitness_exec(&self.chars, rankings);
    }
}

} // verus!
