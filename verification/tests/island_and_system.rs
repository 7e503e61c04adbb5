use core::marker::PhantomData;
use emas::{
    Agent, AgentId, BuildError, DefaultCombatWinChanceFn, DefaultReproductionChanceFn, GeneBound,
    Island, ReplayRandomSource, RunClock, SphereFitness, StdRandomSource, System, SystemBuilder,
};

type Sys = System<SphereFitness, DefaultCombatWinChanceFn, DefaultReproductionChanceFn>;
type Builder = SystemBuilder<SphereFitness, DefaultCombatWinChanceFn, DefaultReproductionChanceFn>;

struct TestClock(u64);

impl RunClock for TestClock {
    fn elapsed_ms(&mut self) -> u64 {
        self.0 += 1;
        self.0
    }
}

fn agent(island: usize, seq: u64, genes: Vec<i64>, energy: u32, fitness: i64) -> Agent {
    Agent { genes, energy, id: AgentId { island, seq }, fitness }
}

fn island(id: usize, agents: Vec<Agent>, last: u64, hb: Agent) -> Island {
    Island { id, agents, migration_queue: Vec::new(), last_agent_id: last, historical_best: hb }
}

fn sys(islands: Vec<Island>) -> Sys {
    System {
        islands,
        steps: 0,
        energy_reproduction_share: 250_000,
        energy_combat: 2,
        migration_steps: 1,
        migrations_best_amount: 10,
        migrations_elite_amount: 5,
        logs: Vec::new(),
        log_steps: 1,
        strategies: PhantomData,
    }
}

// Golden scenario: one island, four agents with known genes and energies.
// The reproduction policy sends the two rich agents into reproduction and
// the two poor ones into combat; every random draw is scripted, so the
// children's genes and energies and the combat transfer are exact.
#[test]
fn scripted_step_is_fully_deterministic() {
    let a0 = agent(0, 0, vec![10, 20], 60, 500);
    let a1 = agent(0, 1, vec![30, 40], 60, 2500);
    let a2 = agent(0, 2, vec![5, 5], 10, 50);
    let a3 = agent(0, 3, vec![7, 1], 10, 50);
    let hb = a0.snapshot();
    let mut isl = island(0, vec![a0, a1, a2, a3], 3, hb);

    let draws = vec![
        0, 0, 0, 0, // classification rolls (policies are deterministic here)
        0, 0, // reproduction pairing shuffle
        1, // crossover cut point
        0, 5, 1, 0, 10, 0, // first child's mutation: +5 on gene 0, -10 on gene 1
        0, 3, 0, 0, 7, 1, // second child's mutation: -3 on gene 0, +7 on gene 1
        0, 0, // combat pairing shuffle
        500_000, // combat roll: 500000 >= 200000, second fighter wins
    ];
    let mut rng = ReplayRandomSource::new(draws);
    isl.step::<SphereFitness, DefaultCombatWinChanceFn, DefaultReproductionChanceFn, ReplayRandomSource>(
        250_000, 2, &mut rng,
    );

    assert_eq!(isl.agents.len(), 6);
    // parents taxed floor(0.25 * 60) = 15 each
    assert_eq!(isl.agents[0].id, AgentId { island: 0, seq: 0 });
    assert_eq!(isl.agents[0].energy, 45);
    assert_eq!(isl.agents[0].genes, vec![10, 20]);
    assert_eq!(isl.agents[1].id, AgentId { island: 0, seq: 1 });
    assert_eq!(isl.agents[1].energy, 45);
    // combat: the two poor agents fought for 2 energy, second fighter won
    assert_eq!(isl.agents[2].id, AgentId { island: 0, seq: 2 });
    assert_eq!(isl.agents[2].energy, 12);
    assert_eq!(isl.agents[3].id, AgentId { island: 0, seq: 3 });
    assert_eq!(isl.agents[3].energy, 8);
    // children: crossover at cut 1 of parents (30,40) x (10,20), then mutation
    assert_eq!(isl.agents[4].id, AgentId { island: 0, seq: 4 });
    assert_eq!(isl.agents[4].genes, vec![35, 10]);
    assert_eq!(isl.agents[4].energy, 15);
    assert_eq!(isl.agents[4].fitness, 35 * 35 + 10 * 10);
    assert_eq!(isl.agents[5].id, AgentId { island: 0, seq: 5 });
    assert_eq!(isl.agents[5].genes, vec![7, 47]);
    assert_eq!(isl.agents[5].energy, 15);
    assert_eq!(isl.agents[5].fitness, 7 * 7 + 47 * 47);
    // total energy conserved, no deaths, counter advanced by two mints
    let total: u32 = isl.agents.iter().map(|a| a.energy).sum();
    assert_eq!(total, 140);
    assert_eq!(isl.last_agent_id, 5);
    assert_eq!(isl.historical_best.fitness, 500);
    assert!(isl.migration_queue.is_empty());
}

// Elite selection bound: one migration round moves exactly
// min(elite, best, population) agents, and they are the highest-energy ones
// when the sample picks the head of the ranking.
#[test]
fn step_migrations_moves_elite_count() {
    let agents = vec![
        agent(0, 0, vec![0, 0], 5, 0),
        agent(0, 1, vec![0, 0], 1, 0),
        agent(0, 2, vec![0, 0], 9, 0),
        agent(0, 3, vec![0, 0], 3, 0),
        agent(0, 4, vec![0, 0], 7, 0),
    ];
    let hb = agents[0].snapshot();
    let mut isl = island(0, agents, 4, hb);
    // two sample draws: always take the head of the remaining pool
    let mut rng = ReplayRandomSource::new(vec![0, 0]);
    isl.step_migrations::<SphereFitness, ReplayRandomSource>(3, 2, &mut rng);
    assert_eq!(isl.migration_queue.len(), 2);
    assert_eq!(isl.agents.len(), 3);
    let moved: Vec<u32> = isl.migration_queue.iter().map(|a| a.energy).collect();
    assert_eq!(moved, vec![9, 7]);
    // the bound: never more than min(best, elite, population)
    let mut rng = ReplayRandomSource::new(vec![0, 0, 0, 0, 0, 0, 0, 0]);
    isl.step_migrations::<SphereFitness, ReplayRandomSource>(100, 100, &mut rng);
    assert_eq!(isl.agents.len(), 0);
    assert_eq!(isl.migration_queue.len(), 5);
}

// Migration exclusivity: after the global pass no outbox holds anything,
// every emigrant is somewhere, and nobody landed back on its source island.
#[test]
fn migrate_agents_excludes_source_island() {
    let x = agent(0, 7, vec![1, 1], 4, 2);
    let y = agent(1, 9, vec![2, 2], 6, 8);
    let h0 = agent(0, 0, vec![0, 0], 3, 0);
    let h1 = agent(1, 0, vec![0, 0], 3, 0);
    let hb0 = h0.snapshot();
    let hb1 = h1.snapshot();
    let mut i0 = island(0, vec![h0], 7, hb0);
    i0.migration_queue.push(x);
    let mut i1 = island(1, vec![h1], 9, hb1);
    i1.migration_queue.push(y);
    let mut s = sys(vec![i0, i1]);
    let mut rng = ReplayRandomSource::new(vec![0, 0]);
    s.migrate_agents(&mut rng);
    assert!(s.islands[0].migration_queue.is_empty());
    assert!(s.islands[1].migration_queue.is_empty());
    // x left island 0 and can only be on island 1; y the other way round
    assert!(s.islands[1].agents.iter().any(|a| a.id == AgentId { island: 0, seq: 7 }));
    assert!(s.islands[0].agents.iter().any(|a| a.id == AgentId { island: 1, seq: 9 }));
    assert!(!s.islands[0].agents.iter().any(|a| a.id == AgentId { island: 0, seq: 7 }));
    assert!(!s.islands[1].agents.iter().any(|a| a.id == AgentId { island: 1, seq: 9 }));
    // populations grew by exactly the immigrants
    assert_eq!(s.islands[0].agents.len(), 2);
    assert_eq!(s.islands[1].agents.len(), 2);
}

// best_sol picks the island whose historical best has the lowest fitness.
#[test]
fn best_sol_prefers_lower_fitness_island() {
    let hb_a = agent(0, 0, vec![1, 2], 3, 5);
    let hb_b = agent(1, 0, vec![8, 9], 3, 9);
    let a_live = hb_a.snapshot();
    let b_live = hb_b.snapshot();
    let i0 = island(0, vec![a_live], 0, hb_a);
    let i1 = island(1, vec![b_live], 0, hb_b);
    let s = sys(vec![i0, i1]);
    assert_eq!(s.best_sol(), vec![1, 2]);

    // swapped order still returns the lower-fitness island's genes
    let hb_a = agent(0, 0, vec![1, 2], 3, 11);
    let hb_b = agent(1, 0, vec![8, 9], 3, 9);
    let a_live = hb_a.snapshot();
    let b_live = hb_b.snapshot();
    let i0 = island(0, vec![a_live], 0, hb_a);
    let i1 = island(1, vec![b_live], 0, hb_b);
    let s = sys(vec![i0, i1]);
    assert_eq!(s.best_sol(), vec![8, 9]);
}

#[test]
fn log_records_aggregate_population() {
    let a = agent(0, 0, vec![1, 2], 3, 5);
    let b = agent(0, 1, vec![8, 9], 4, 145);
    let hb = a.snapshot();
    let mut s = sys(vec![island(0, vec![a, b], 1, hb)]);
    s.log(77);
    assert_eq!(s.logs.len(), 1);
    let r = &s.logs[0];
    assert_eq!(r.elapsed_ms, 77);
    assert_eq!(r.agents_amount, 2);
    assert_eq!(r.energy_sum, 7);
    assert_eq!(r.best_ever_fitness, 5);
    assert_eq!(r.best_living_fitness, Some(5));
    assert_eq!(r.fitness_total, 150);
}

// Builder validation: an inverted domain must fail before any island is
// created, and each bad parameter reports its own error.
#[test]
fn builder_validation_rejects_bad_configurations() {
    assert_eq!(
        emas::builder::validate_domain(&vec![GeneBound { min: 5, max: 3 }]),
        Some(BuildError::InvalidDomain)
    );
    assert_eq!(
        emas::builder::validate_domain(&Vec::new()),
        Some(BuildError::OversizedDomain)
    );
    assert_eq!(
        emas::builder::validate_domain(&vec![GeneBound { min: -3, max: 3 }]),
        None
    );

    let mut rng = ReplayRandomSource::new(vec![]);
    let err = Builder::new().energy_passed_on_reproduction(0).build(&mut rng);
    assert_eq!(err.err(), Some(BuildError::InvalidEnergyShare));
    let err = Builder::new().energy_passed_on_reproduction(1_000_001).build(&mut rng);
    assert_eq!(err.err(), Some(BuildError::InvalidEnergyShare));
    let err = Builder::new().island_amount(0).build(&mut rng);
    assert_eq!(err.err(), Some(BuildError::InvalidIslandAmount));
    let err = Builder::new().agents_per_island(0).build(&mut rng);
    assert_eq!(err.err(), Some(BuildError::InvalidPopulation));
    let err = Builder::new().agent_energy(0).build(&mut rng);
    assert_eq!(err.err(), Some(BuildError::InvalidEnergy));
    let err = Builder::new().migration_steps(0).build(&mut rng);
    assert_eq!(err.err(), Some(BuildError::InvalidPeriod));
    let err = Builder::new().log_steps(0).build(&mut rng);
    assert_eq!(err.err(), Some(BuildError::InvalidPeriod));
    let err = Builder::new()
        .island_amount(usize::MAX)
        .agents_per_island(usize::MAX)
        .build(&mut rng);
    assert_eq!(err.err(), Some(BuildError::EnergyOverflow));
}

#[test]
fn builder_defaults_construct_a_full_system() {
    let mut rng = StdRandomSource::seeded(11);
    let s = Builder::new().build(&mut rng).unwrap();
    assert_eq!(s.islands.len(), 5);
    assert_eq!(s.steps, 10_000);
    assert_eq!(s.energy_combat, 2);
    assert_eq!(s.migration_steps, 50);
    assert_eq!(s.log_steps, 100);
    for (j, isl) in s.islands.iter().enumerate() {
        assert_eq!(isl.id, j);
        assert_eq!(isl.agents.len(), 100);
        assert!(isl.migration_queue.is_empty());
        assert_eq!(isl.last_agent_id, 99);
        for a in isl.agents.iter() {
            assert_eq!(a.energy, 10);
            assert_eq!(a.genes.len(), 2);
            assert_eq!(a.id.island, j);
            assert_eq!(a.fitness, a.genes[0] * a.genes[0] + a.genes[1] * a.genes[1]);
        }
    }
}

fn total_energy(s: &Sys) -> u64 {
    s.islands
        .iter()
        .map(|i| {
            i.agents.iter().map(|a| a.energy as u64).sum::<u64>()
                + i.migration_queue.iter().map(|a| a.energy as u64).sum::<u64>()
        })
        .sum()
}

// Monotone best tracking and global energy conservation over a seeded run.
#[test]
fn ticks_preserve_energy_and_never_regress_best() {
    let mut rng = StdRandomSource::seeded(42);
    let mut s = Builder::new()
        .island_amount(3)
        .agents_per_island(8)
        .agent_energy(12)
        .steps(30)
        .migration_steps(5)
        .migrations_best_amount(4)
        .migrations_elite_amount(2)
        .log_steps(10)
        .build(&mut rng)
        .unwrap();
    let energy_before = total_energy(&s);
    let mut best: Vec<i64> = s.islands.iter().map(|i| i.historical_best.fitness).collect();
    for i in 0..30u32 {
        s.tick(i, i as u64, &mut rng);
        assert_eq!(total_energy(&s), energy_before);
        for (j, isl) in s.islands.iter().enumerate() {
            assert!(isl.historical_best.fitness <= best[j]);
            best[j] = isl.historical_best.fitness;
        }
    }
}

#[test]
fn run_returns_best_genes_and_logs_on_cadence() {
    let mut rng = StdRandomSource::seeded(7);
    let mut s = Builder::new()
        .island_amount(3)
        .agents_per_island(10)
        .agent_energy(60)
        .steps(30)
        .migration_steps(7)
        .migrations_best_amount(3)
        .migrations_elite_amount(1)
        .log_steps(10)
        .build(&mut rng)
        .unwrap();
    let mut clock = TestClock(0);
    let best = s.run(&mut rng, &mut clock);
    // ticks 0, 10, 20 logged
    assert_eq!(s.logs.len(), 3);
    // the returned genes are the best historical snapshot's genes
    let min_fit = s.islands.iter().map(|i| i.historical_best.fitness).min().unwrap();
    let winner = s
        .islands
        .iter()
        .find(|i| i.historical_best.fitness == min_fit)
        .unwrap();
    assert_eq!(best, winner.historical_best.genes);
}

#[test]
fn one_agent_island_survives_a_step() {
    let a = agent(0, 0, vec![3, 3], 60, 18);
    let hb = a.snapshot();
    let mut isl = island(0, vec![a], 0, hb);
    let mut rng = ReplayRandomSource::new(vec![0]);
    isl.step::<SphereFitness, DefaultCombatWinChanceFn, DefaultReproductionChanceFn, ReplayRandomSource>(
        250_000, 2, &mut rng,
    );
    assert_eq!(isl.agents.len(), 1);
    assert_eq!(isl.agents[0].energy, 60);
}
