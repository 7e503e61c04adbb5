use emas::{
    Agent, AgentId, DefaultCombatWinChanceFn, DefaultReproductionChanceFn, GeneBound,
    RandomSource, ReplayRandomSource, SphereFitness,
};
use emas::{Action, CombatWinChanceFn, FitnessFn, ReproductionChanceFn};

fn agent(island: usize, seq: u64, genes: Vec<i64>, energy: u32, fitness: i64) -> Agent {
    Agent { genes, energy, id: AgentId { island, seq }, fitness }
}

#[test]
fn sphere_fitness_is_sum_of_squares() {
    assert_eq!(SphereFitness::call(&vec![0, 0]), 0);
    assert_eq!(SphereFitness::call(&vec![3, 4]), 25);
    assert_eq!(SphereFitness::call(&vec![-5, 2]), 29);
    let d = SphereFitness::domain();
    assert_eq!(d.len(), 2);
    assert_eq!(d[0], GeneBound { min: -1_000_000, max: 1_000_000 });
}

#[test]
fn default_policies_match_documented_tables() {
    assert_eq!(DefaultCombatWinChanceFn::call(10, 20), 800_000);
    assert_eq!(DefaultCombatWinChanceFn::call(20, 10), 200_000);
    assert_eq!(DefaultCombatWinChanceFn::call(10, 10), 200_000);
    assert_eq!(DefaultReproductionChanceFn::call(0), 0);
    assert_eq!(DefaultReproductionChanceFn::call(24), 0);
    assert_eq!(DefaultReproductionChanceFn::call(25), 250_000);
    assert_eq!(DefaultReproductionChanceFn::call(49), 250_000);
    assert_eq!(DefaultReproductionChanceFn::call(50), 1_000_000);
}

#[test]
fn replay_source_ranges() {
    let mut rng = ReplayRandomSource::new(vec![7, 1_234_567, 3, 1]);
    assert_eq!(rng.next_below(5), 2); // 7 % 5
    assert_eq!(rng.next_chance(), 234_567); // 1_234_567 % 1_000_000
    assert_eq!(rng.next_gene(10, 20), 13); // 10 + 3 % 11
    assert!(rng.next_coin()); // 1 % 2 == 1
    // exhausted recording: raw draws are 0 from here on
    assert_eq!(rng.next_below(9), 0);
    assert!(!rng.next_coin());
}

// Energy conservation under reproduction: the two children's combined energy
// equals exactly the floor shares withheld from the parents, split
// floor/ceil.
#[test]
fn reproduction_conserves_energy_exactly() {
    // cut draw, then 6 mutation draws per child (roll, offset, coin) x 2
    let draws = vec![0, 0, 0, 0, 0, 0, 0, 0, 0, 0, 0, 0, 0];
    let mut rng = ReplayRandomSource::new(draws);
    let mut a = agent(0, 0, vec![10, 20], 7, 500);
    let mut b = agent(0, 1, vec![30, 40], 9, 2500);
    let (c1, c2) = a.reproduce::<SphereFitness, ReplayRandomSource>(
        &mut b,
        500_000,
        AgentId { island: 0, seq: 2 },
        AgentId { island: 0, seq: 3 },
        &mut rng,
    );
    // floor(0.5 * 7) = 3, floor(0.5 * 9) = 4
    assert_eq!(a.energy, 4);
    assert_eq!(b.energy, 5);
    assert_eq!(c1.energy, 3); // floor(7 / 2)
    assert_eq!(c2.energy, 4); // ceil(7 / 2)
    assert_eq!(c1.energy + c2.energy, 3 + 4);
    assert_eq!(a.energy + b.energy + c1.energy + c2.energy, 7 + 9);
    assert_eq!(c1.id, AgentId { island: 0, seq: 2 });
    assert_eq!(c2.id, AgentId { island: 0, seq: 3 });
}

// Energy conservation under combat: winner gains what the loser pays, and
// the transfer is capped so the loser cannot go negative.
#[test]
fn combat_transfers_capped_energy() {
    // a is fitter (lower fitness): win chance 800_000; draw 0 means a wins
    let mut rng = ReplayRandomSource::new(vec![0]);
    let mut a = agent(0, 0, vec![1, 1], 5, 2);
    let mut b = agent(0, 1, vec![9, 9], 3, 162);
    a.combat::<DefaultCombatWinChanceFn, ReplayRandomSource>(&mut b, 10, &mut rng);
    assert_eq!(a.energy, 8); // gained min(10, 3) = 3
    assert_eq!(b.energy, 0);
    assert_eq!(a.energy + b.energy, 5 + 3);

    // draw 900_000 >= any chance: b wins, capped at a's 5
    let mut rng = ReplayRandomSource::new(vec![900_000]);
    let mut a = agent(0, 0, vec![1, 1], 5, 2);
    let mut b = agent(0, 1, vec![9, 9], 3, 162);
    a.combat::<DefaultCombatWinChanceFn, ReplayRandomSource>(&mut b, 10, &mut rng);
    assert_eq!(a.energy, 0);
    assert_eq!(b.energy, 8);
    assert_eq!(a.energy + b.energy, 8);
}

// Domain clamping: mutation never leaves the declared box, even when the
// drawn offset would cross a bound.
#[test]
fn mutation_clamps_to_domain() {
    // per gene: roll, offset, coin; push gene 0 up from max, gene 1 down from min
    let draws = vec![0, 100_000, 1, 0, 100_000, 0];
    let mut rng = ReplayRandomSource::new(draws);
    let mut a = agent(0, 0, vec![1_000_000, -1_000_000], 5, 2_000_000_000_000);
    a.mutate::<SphereFitness, ReplayRandomSource>(&mut rng);
    assert_eq!(a.genes, vec![1_000_000, -1_000_000]);
    assert_eq!(a.fitness, 2_000_000_000_000);

    // same offsets pointed inwards actually move the genes
    let draws = vec![0, 100_000, 0, 0, 100_000, 1];
    let mut rng = ReplayRandomSource::new(draws);
    let mut b = agent(0, 0, vec![1_000_000, -1_000_000], 5, 2_000_000_000_000);
    b.mutate::<SphereFitness, ReplayRandomSource>(&mut rng);
    assert_eq!(b.genes, vec![900_000, -900_000]);
    assert_eq!(b.fitness, 900_000i64 * 900_000 + 900_000i64 * 900_000);
    assert!(b.genes.iter().all(|g| (-1_000_000..=1_000_000).contains(g)));
}

#[test]
fn pick_action_follows_policy_extremes() {
    let mut rng = ReplayRandomSource::new(vec![999_999, 0]);
    let rich = agent(0, 0, vec![0, 0], 60, 0);
    let poor = agent(0, 1, vec![0, 0], 5, 0);
    let a1 = rich.pick_action::<DefaultReproductionChanceFn, ReplayRandomSource>(&mut rng);
    let a2 = poor.pick_action::<DefaultReproductionChanceFn, ReplayRandomSource>(&mut rng);
    assert_eq!(a1, Action::Reproduce);
    assert_eq!(a2, Action::Combat);
}

#[test]
fn snapshot_copies_every_field() {
    let a = agent(3, 17, vec![5, -9], 42, 106);
    let s = a.snapshot();
    assert_eq!(s.genes, a.genes);
    assert_eq!(s.energy, a.energy);
    assert_eq!(s.id, a.id);
    assert_eq!(s.fitness, a.fitness);
}
