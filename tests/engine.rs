use char_evolve::bundle::{
    bundle_is_ok, default_bundle, mutate_bundle, perturb_options, pick_delta, shift_candidates,
    transfer, AttributeTable, CharacterBundle, KNOW, MIGHT, SANITY, SPEED,
};
use char_evolve::individual::{crossover, Individual};
use char_evolve::population::{near, worst_two, Population, RunError};
use char_evolve::rankings::Rankings;
use char_evolve::score::{fitness_exec, power16_exec};
use rand::rngs::StdRng;
use rand::SeedableRng;

fn same_orders(n: usize) -> Rankings {
    let order: Vec<usize> = (0..n).collect();
    Rankings::new(vec![order.clone(), order.clone(), order.clone(), order]).unwrap()
}

fn check_bundle_by_hand(b: &CharacterBundle) {
    let mut con = 0;
    let mut starts = 0;
    let mut total = 0;
    for (a, t) in b.tables.iter().enumerate() {
        assert_eq!(t.values.len(), 8);
        for k in 0..8 {
            assert!(t.values[k] >= 1 && t.values[k] <= 8);
            if k > 0 {
                assert!(t.values[k - 1] <= t.values[k]);
            }
            total += t.values[k];
        }
        assert!(t.start >= 2 && t.start <= 4);
        con += t.start;
        let sv = t.values[t.start];
        starts += sv;
        if a == MIGHT {
            assert!(sv >= 2);
        } else {
            assert!(sv >= 3);
        }
    }
    assert!(con == 10 || con == 11);
    assert_eq!(starts, 15);
    assert!((145..=155).contains(&total));
}

#[test]
fn default_bundle_is_valid() {
    let b = default_bundle();
    assert!(bundle_is_ok(&b));
    check_bundle_by_hand(&b);
    assert_eq!(b.tables[MIGHT].start, 2);
    assert_eq!(b.tables[SPEED].start, 3);
    assert_eq!(b.tables[KNOW].start, 3);
    assert_eq!(b.tables[SANITY].start, 3);
    assert_eq!(b.tables[MIGHT].values, [2, 2, 3, 4, 5, 6, 7, 8]);
}

#[test]
fn broken_bundles_are_rejected() {
    let mut b = default_bundle();
    b.tables[SPEED].values[5] = 4;
    assert!(!bundle_is_ok(&b));
    let mut b = default_bundle();
    b.tables[KNOW].start = 4;
    assert!(!bundle_is_ok(&b));
    let mut b = default_bundle();
    b.tables[MIGHT].start = 1;
    assert!(!bundle_is_ok(&b));
}

#[test]
fn mutation_keeps_invariants() {
    for seed in 0..200u64 {
        let mut rng = StdRng::seed_from_u64(seed);
        let mut b = default_bundle();
        for _ in 0..20 {
            mutate_bundle(&mut b, &mut rng);
            assert!(bundle_is_ok(&b));
            check_bundle_by_hand(&b);
        }
    }
}

#[test]
fn perturbation_options() {
    let t = AttributeTable { values: [2, 2, 3, 4, 5, 6, 7, 8], start: 3 };
    // the start index never moves
    assert_eq!(perturb_options(&t, 3, 148), (false, false));
    // first entry: raise blocked by the equal right neighbour, lower allowed
    assert_eq!(perturb_options(&t, 0, 148), (false, true));
    // last entry at 8: no raise; lowering keeps it above 5
    assert_eq!(perturb_options(&t, 7, 148), (false, true));
    // budget at its bounds
    assert_eq!(perturb_options(&t, 2, 155), (false, true));
    assert_eq!(perturb_options(&t, 2, 145), (true, false));
    assert_eq!(perturb_options(&t, 2, 150), (true, true));
}

#[test]
fn option_picking() {
    assert_eq!(pick_delta(true, true, 0), 0);
    assert_eq!(pick_delta(true, true, 1), 1);
    assert_eq!(pick_delta(true, true, 2), -1);
    assert_eq!(pick_delta(false, true, 1), -1);
}

#[test]
fn transfer_moves_one_point() {
    let mut b = default_bundle();
    // Speed baseline 4 > 3 and above its left neighbour; Might baseline 3 < 4
    // and can go up
    assert!(transfer(&mut b, SPEED, MIGHT));
    assert_eq!(b.tables[SPEED].values[3], 3);
    assert_eq!(b.tables[MIGHT].values[2], 4);
    assert!(bundle_is_ok(&b));
    // Speed baseline 3 can no longer give
    let before = b;
    assert!(!transfer(&mut b, SPEED, KNOW));
    assert_eq!(b.tables[SPEED].values, before.tables[SPEED].values);
    assert_eq!(b.tables[KNOW].values, before.tables[KNOW].values);
}

#[test]
fn shift_candidates_of_default() {
    let b = default_bundle();
    let c = shift_candidates(&b, MIGHT, SPEED);
    assert!(c.contains(&(0, 0)));
    for &(d1, d2) in c.iter() {
        let mut nb = b;
        nb.tables[MIGHT].start = (2 + d1) as usize;
        nb.tables[SPEED].start = (3 + d2) as usize;
        assert!(bundle_is_ok(&nb));
    }
    for d1 in -1i32..2 {
        for d2 in -1i32..2 {
            let mut nb = b;
            nb.tables[MIGHT].start = (2 + d1) as usize;
            nb.tables[SPEED].start = (3 + d2) as usize;
            assert_eq!(bundle_is_ok(&nb), c.contains(&(d1, d2)));
        }
    }
}

#[test]
fn weighted_power_values() {
    let v = [2, 2, 3, 4, 5, 6, 7, 8];
    assert_eq!(power16_exec(&AttributeTable { values: v, start: 2 }), 124);
    assert_eq!(power16_exec(&AttributeTable { values: v, start: 3 }), 178);
    assert_eq!(power16_exec(&AttributeTable { values: v, start: 4 }), 230);
}

#[test]
fn fitness_of_default_bundles() {
    let rk = same_orders(3);
    let ind = Individual::unmutated(0, 0, 0, &rk);
    // ranks all match, Might's mean 3 is 0.25 off (2 after truncation), the
    // others are on target, 3 characters of constitution 11 and no index 4
    assert_eq!(ind.fitness, 5);
    let reversed = Rankings::new(vec![vec![2, 1, 0], vec![0, 1, 2], vec![0, 1, 2], vec![0, 1, 2]]).unwrap();
    let ind = Individual::unmutated(0, 0, 0, &reversed);
    assert_eq!(ind.fitness, 9);
    assert_eq!(fitness_exec(&ind.chars, &reversed), 9);
}

#[test]
fn fitness_rewards_index_four() {
    let rk = same_orders(2);
    let mut chars = vec![default_bundle(), default_bundle()];
    // character 0: Speed starts at 4 (value 5), Know at 2 (value 3)
    chars[0].tables[SPEED].start = 4;
    chars[0].tables[KNOW].start = 2;
    assert!(bundle_is_ok(&chars[0]));
    // rank: Speed puts character 0 first as listed; Know puts character 1
    // first, an error of 2
    // avg: Might 0.25 off -> 2; Speed mean 4.5 -> 5; Know mean 3.5 -> 5
    // diversity: both constitutions 11 -> 2, minus min(1, 1) -> 1
    assert_eq!(fitness_exec(&chars, &rk), 2 + 2 + 5 + 5 + 1);
    // a constitution of 10 for character 1 balances the groups
    chars[1].tables[SPEED].start = 2;
    chars[1].tables[KNOW].start = 4;
    chars[1].tables[SANITY].start = 2;
    chars[1].tables[SANITY].values = [2, 4, 4, 5, 5, 6, 7, 8];
    assert!(bundle_is_ok(&chars[1]));
    // rank: only Know is out of order (2); avg: only Might is off (2);
    // diversity: one 10, one 11 -> 0, minus min(2, 1) -> -1
    assert_eq!(fitness_exec(&chars, &rk), 2 + 2 - 1);
}

#[test]
fn unmutated_score_is_reproducible() {
    let rk = Rankings::new(vec![vec![1, 0, 2], vec![2, 0, 1], vec![0, 1, 2], vec![1, 2, 0]]).unwrap();
    let a = Individual::unmutated(3, 4, 0, &rk);
    let b = Individual::unmutated(9, 9, 1, &rk);
    assert_eq!(a.fitness, b.fitness);
    let mut r1 = StdRng::seed_from_u64(11);
    let mut r2 = StdRng::seed_from_u64(11);
    let x = Individual::new(0, 0, 0, &rk, &mut r1);
    let y = Individual::new(0, 0, 0, &rk, &mut r2);
    assert_eq!(x.fitness, y.fitness);
}

#[test]
fn rankings_validation() {
    assert!(Rankings::new(vec![vec![0, 1], vec![1, 0], vec![0, 1]]).is_none());
    assert!(Rankings::new(vec![vec![], vec![], vec![], vec![]]).is_none());
    assert!(Rankings::new(vec![vec![0, 1], vec![1, 0], vec![0, 1], vec![0, 0]]).is_none());
    assert!(Rankings::new(vec![vec![0, 1], vec![1, 0], vec![0, 2], vec![0, 1]]).is_none());
    assert!(Rankings::new(vec![vec![0, 1], vec![1], vec![0, 1], vec![0, 1]]).is_none());
    let rk = Rankings::new(vec![vec![0, 1], vec![1, 0], vec![0, 1], vec![1, 0]]).unwrap();
    assert_eq!(rk.character_count(), 2);
}

#[test]
fn crossover_of_identical_parents() {
    let rk = same_orders(4);
    let mut rng = StdRng::seed_from_u64(5);
    let a = Individual::new(0, 0, 0, &rk, &mut rng);
    let picks = vec![true, false, false, true];
    let r = crossover(&a.chars, &a.chars.clone(), &picks);
    for c in 0..4 {
        assert_eq!(r[c].tables[0].values, a.chars[c].tables[0].values);
        assert_eq!(r[c].tables[3].start, a.chars[c].tables[3].start);
    }
}

#[test]
fn crossover_takes_whole_bundles() {
    let a = vec![default_bundle(), default_bundle()];
    let mut b = a.clone();
    b[0].tables[SPEED].start = 4;
    b[0].tables[KNOW].start = 2;
    b[1].tables[SANITY].values[7] = 7;
    let r = crossover(&a, &b, &vec![false, true]);
    assert_eq!(r[0].tables[SPEED].start, 4);
    assert_eq!(r[0].tables[KNOW].start, 2);
    assert_eq!(r[1].tables[SANITY].values[7], 8);
}

#[test]
fn breeding_gives_valid_children() {
    let rk = same_orders(5);
    let mut rng = StdRng::seed_from_u64(17);
    let a = Individual::new(0, 0, 0, &rk, &mut rng);
    let b = Individual::new(1, 1, 1, &rk, &mut rng);
    for id in 2..50 {
        let c = Individual::breed(&a, &b, 7, 8, id, &rk, &mut rng);
        assert_eq!(c.id, id);
        assert_eq!((c.x, c.y), (7, 8));
        assert_eq!(c.chars.len(), 5);
        assert_eq!(c.fitness, fitness_exec(&c.chars, &rk));
        for bundle in c.chars.iter() {
            check_bundle_by_hand(bundle);
        }
    }
}

#[test]
fn thousand_individuals_of_three_characters() {
    let rk = same_orders(3);
    let mut rng = StdRng::seed_from_u64(1);
    let p = Population::new(rk, 1000, &mut rng);
    assert_eq!(p.pop.len(), 1000);
    for (i, ind) in p.pop.iter().enumerate() {
        assert_eq!(ind.chars.len(), 3);
        assert_eq!(ind.id, i);
        assert!(ind.x >= 0 && ind.x < 1000 && ind.y >= 0 && ind.y < 1000);
    }
}

#[test]
fn window_wraps_around() {
    assert!(near(995, 5, 50, 1000));
    assert!(!near(500, 5, 50, 1000));
    assert!(near(55, 5, 50, 1000));
    assert!(!near(56, 5, 50, 1000));
    assert!(near(955, 5, 50, 1000));
    assert!(!near(954, 5, 50, 1000));
}

#[test]
fn window_members_wrap() {
    let rk = same_orders(2);
    let pop = vec![
        Individual::unmutated(995, 10, 0, &rk),
        Individual::unmutated(500, 10, 1, &rk),
        Individual::unmutated(20, 990, 2, &rk),
    ];
    let p = Population {
        pop,
        x_axis: 1000,
        y_axis: 1000,
        half_width: 50,
        rankings: rk,
        counter: 3,
    };
    assert_eq!(p.window_members(5, 10), vec![0, 2]);
}

#[test]
fn worst_two_of_four() {
    assert_eq!(worst_two(&[5, 9, 1, 7]), (1, 3));
    let (a, b) = worst_two(&[3, 3, 3, 3]);
    assert!(a != b);
    assert_eq!(worst_two(&[10, 2, 8, 1]), (0, 2));
}

#[test]
fn one_generation_removes_two_worst() {
    let rk = same_orders(3);
    let mut rng = StdRng::seed_from_u64(23);
    let mut p = Population::with_space(rk, 8, 100, 100, 50, &mut rng);
    let picks = vec![6, 1, 4, 3];
    let mut order: Vec<usize> = picks.clone();
    order.sort_by_key(|&i| p.pop[i].fitness);
    let worst = p.pop[order[3]].fitness;
    let second = p.pop[order[2]].fitness;
    let kept_max = p.pop[order[0]].fitness.max(p.pop[order[1]].fitness);
    let old_ids: Vec<usize> = p.pop.iter().map(|i| i.id).collect();
    let max_old = *old_ids.iter().max().unwrap();
    let (l1, l2) = p.advance(&picks, 50, 50, &mut rng);
    assert_ne!(l1, l2);
    let f1 = old_ids.iter().position(|&x| x == l1).unwrap();
    let f2 = old_ids.iter().position(|&x| x == l2).unwrap();
    assert!(picks.contains(&f1) && picks.contains(&f2));
    assert!(kept_max <= worst && kept_max <= second);
    assert_eq!(p.pop.len(), 8);
    let new_ids: Vec<usize> = p.pop.iter().map(|i| i.id).collect();
    assert!(!new_ids.contains(&l1) && !new_ids.contains(&l2));
    assert!(new_ids.contains(&8) && new_ids.contains(&9));
    assert!(8 > max_old);
    assert_eq!(p.counter, 10);
    for id in old_ids.iter() {
        if *id != l1 && *id != l2 {
            assert!(new_ids.contains(id));
        }
    }
    for ind in p.pop.iter().filter(|i| i.id >= 8) {
        assert!((ind.x - 50).abs() <= 50 && (ind.y - 50).abs() <= 50);
        assert!(ind.x >= 0 && ind.x < 100);
    }
}

#[test]
fn run_keeps_size_and_grows_ids() {
    let rk = same_orders(4);
    let mut rng = StdRng::seed_from_u64(99);
    let mut p = Population::with_space(rk, 60, 100, 100, 20, &mut rng);
    for _ in 0..10 {
        let before: Vec<usize> = p.pop.iter().map(|i| i.id).collect();
        let max_before = *before.iter().max().unwrap();
        let fit: Vec<i32> = p.pop.iter().map(|i| i.fitness).collect();
        let g = p.run_generation(&mut rng).unwrap();
        let r = g.culled;
        let after: Vec<usize> = p.pop.iter().map(|i| i.id).collect();
        assert_eq!(after.len(), 60);
        assert!(before.contains(&r.0) && before.contains(&r.1));
        assert_eq!(g.picks.len(), 4);
        let culled_picks: Vec<usize> =
            g.picks.iter().cloned().filter(|&k| before[k] == r.0 || before[k] == r.1).collect();
        assert_eq!(culled_picks.len(), 2);
        for &k in g.picks.iter().filter(|k| !culled_picks.contains(k)) {
            assert!(culled_picks.iter().all(|&c| fit[k] <= fit[c]));
            assert!(after.contains(&before[k]));
        }
        let gone: Vec<&usize> = before.iter().filter(|x| !after.contains(x)).collect();
        let fresh: Vec<&usize> = after.iter().filter(|x| !before.contains(x)).collect();
        assert_eq!(gone.len(), 2);
        assert_eq!(fresh.len(), 2);
        assert!(fresh.iter().all(|&&x| x > max_before));
        let mut sorted = after.clone();
        sorted.sort();
        sorted.dedup();
        assert_eq!(sorted.len(), 60);
    }
    assert_eq!(p.run(5, &mut rng), Ok(()));
    assert_eq!(p.counter, 60 + 20 + 10);
    assert_eq!(p.pop.len(), 60);
}

#[test]
fn sparse_population_stops() {
    let rk = same_orders(2);
    let mut rng = StdRng::seed_from_u64(3);
    let mut p = Population::with_space(rk, 3, 1000, 1000, 50, &mut rng);
    assert!(p.run_generation(&mut rng).is_none());
    assert_eq!(p.run(2, &mut rng), Err(RunError::InsufficientDensity));
    assert_eq!(p.counter, 3);
    assert_eq!(p.pop.len(), 3);
}

#[test]
fn dense_population_always_succeeds() {
    let rk = same_orders(2);
    let mut rng = StdRng::seed_from_u64(4);
    // a window of half-width 50 spans an axis of 101: every window holds all
    let mut p = Population::with_space(rk, 4, 101, 101, 50, &mut rng);
    assert_eq!(p.run(30, &mut rng), Ok(()));
    assert_eq!(p.counter, 64);
    assert_eq!(p.run(0, &mut rng), Ok(()));
    assert_eq!(p.counter, 64);
}

fn assert_one_mutation(from: &CharacterBundle, to: &CharacterBundle) {
    let mut moved = 0;
    for a in 0..4 {
        let (t0, t1) = (&from.tables[a], &to.tables[a]);
        let ds = t1.start as i64 - t0.start as i64;
        assert!(ds.abs() <= 1);
        if ds != 0 {
            moved += 1;
        }
        for k in 0..8 {
            let d = (t1.values[k] - t0.values[k]).abs();
            assert!(d <= if k == t1.start { 2 } else { 1 });
        }
    }
    assert!(moved <= 2);
}

#[test]
fn new_individual_is_one_mutation_from_template() {
    let rk = same_orders(6);
    let template = default_bundle();
    for seed in 0..100u64 {
        let mut rng = StdRng::seed_from_u64(seed);
        let ind = Individual::new(0, 0, 0, &rk, &mut rng);
        for b in ind.chars.iter() {
            assert_one_mutation(&template, b);
        }
    }
}

#[test]
fn child_bundles_come_from_one_parent() {
    let rk = same_orders(6);
    let mut rng = StdRng::seed_from_u64(31);
    let a = Individual::new(0, 0, 0, &rk, &mut rng);
    let mut b = Individual::new(0, 0, 1, &rk, &mut rng);
    for _ in 0..5 {
        b = Individual::breed(&b, &b, 0, 0, 1, &rk, &mut rng);
    }
    for id in 2..40 {
        let c = Individual::breed(&a, &b, 0, 0, id, &rk, &mut rng);
        for k in 0..6 {
            let near = |p: &CharacterBundle| {
                (0..4).all(|t| {
                    (c.chars[k].tables[t].start as i64 - p.tables[t].start as i64).abs() <= 1
                        && (0..8).all(|i| (c.chars[k].tables[t].values[i] - p.tables[t].values[i]).abs() <= 2)
                })
            };
            assert!(near(&a.chars[k]) || near(&b.chars[k]));
        }
    }
}

#[test]
fn best_individual() {
    let rk = same_orders(3);
    let mut rng = StdRng::seed_from_u64(8);
    let p = Population::new(rk, 50, &mut rng);
    let b = p.best_index().unwrap();
    assert!(p.pop.iter().all(|i| p.pop[b].fitness <= i.fitness));
}
