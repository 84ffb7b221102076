use gen_alg::genalg::{ConfigError, FitnessIndiv, GenAlg, Rate};
use gen_alg::individual::genetic::Genetic;
use rand::Rng;

const MAX_RAND: i32 = 1000;

#[derive(Clone, Debug, PartialEq)]
struct DummyGenetic {
    a: i32,
    b: i32,
}

impl Genetic for DummyGenetic {
    fn generate() -> Self {
        let mut rng = rand::rng();
        let a = rng.random_range(0..MAX_RAND);
        let b = rng.random_range(0..MAX_RAND);

        DummyGenetic { a: a, b: b }
    }

    fn fitness(&self) -> i64 {
        let score = 1000.0 / 2.0_f32.powf(((self.a - self.b).abs() as f32).sqrt());
        (score as f64 * 1_000_000.0) as i64
    }

    fn crossover(&self, other: &Self) -> Self {
        let mut rng = rand::rng();
        if rng.random_bool(0.5) {
            DummyGenetic {
                a: self.a,
                b: other.b,
            }
        } else {
            DummyGenetic {
                a: other.a,
                b: self.b,
            }
        }
    }

    fn mutate(&mut self) -> () {
        let mut rng = rand::rng();
        match rng.random_bool(0.5) {
            true => self.a = rng.random_range(0..MAX_RAND),
            false => self.b = rng.random_range(0..MAX_RAND),
        }
    }
}

const POP_SIZE: usize = 100;
const NUM_GENS: usize = 100;

const FITNESS_TEST_POP_SIZE: usize = 100;
const FITNESS_TEST_NUM_GENS: usize = 100;
const FITNESS_TEST_ELITE_COUNT: usize = 0;
const EXPECTED_DUMMY_TOTAL_FITNESS_IMPROVEMENT_FACTOR: i128 = 2;

fn fitness_test_selection_rate() -> Rate {
    Rate::new(5, 10)
}

fn fitness_test_mutation_rate() -> Rate {
    Rate::new(5, 100)
}

fn are_vals_in_range(vect: &Vec<FitnessIndiv<DummyGenetic>>) -> bool {
    vect.iter().all(|individual| {
        (0..MAX_RAND).contains(&individual.obj().a) && (0..MAX_RAND).contains(&individual.obj().b)
    })
}

fn are_vals_randomly_generated(vect: &Vec<FitnessIndiv<DummyGenetic>>) -> bool {
    !(vect
        .iter()
        .all(|x| x.obj().a == vect[0].obj().a && x.obj().b == vect[0].obj().b))
}

fn are_populations_same(
    vect: &Vec<FitnessIndiv<DummyGenetic>>,
    other: &Vec<FitnessIndiv<DummyGenetic>>,
) -> bool {
    vect.len() == other.len()
        && vect
            .iter()
            .zip(other)
            .all(|(a, b)| a.obj() == b.obj() && a.fitness() == b.fitness())
}

fn is_sorted(vect: &Vec<FitnessIndiv<DummyGenetic>>) -> bool {
    vect.windows(2).all(|w| w[0].fitness() >= w[1].fitness())
}

#[test]
fn test_gen_alg_creation() {
    let gen_alg = GenAlg::<DummyGenetic>::new(POP_SIZE, None);
    let gen_vec = gen_alg.current_population();

    println!("{:?}", gen_vec);

    assert_eq!(gen_alg.current_population().len(), POP_SIZE);
    assert!(
        are_vals_in_range(gen_vec),
        "One or more values are out of range!"
    );
    assert!(
        are_vals_randomly_generated(gen_vec),
        "All elements in vector are equal, rng doesn't work"
    );
}

#[test]
fn test_gen_alg_creation_init_pop() {
    let init_pop: Vec<DummyGenetic> = (0..POP_SIZE).map(|_| DummyGenetic::generate()).collect();

    let gen_alg = GenAlg::<DummyGenetic>::new(POP_SIZE, Some(&init_pop));
    let gen_vec = gen_alg.current_population();

    println!("{:?}", gen_vec);

    assert_eq!(gen_alg.current_population().len(), POP_SIZE);
    assert!(
        are_vals_in_range(gen_vec),
        "One or more values are out of range!"
    );
    assert!(
        are_vals_randomly_generated(gen_vec),
        "All elements in vector are equal, rng doesn't work"
    );
}

#[test]
fn test_run_genetic_algorithm() {
    let mut gen_alg = GenAlg::<DummyGenetic>::new(POP_SIZE, None);

    println!("{:?}", gen_alg.current_population());

    let result = gen_alg
        .run_genetic_algorithm(NUM_GENS, Rate::new(5, 10), Rate::new(5, 100), 0)
        .unwrap();
    let gen_vec = gen_alg.current_population();

    println!("{:?}", result);

    assert_eq!(gen_alg.current_generation(), NUM_GENS);
    assert!(
        are_vals_in_range(gen_vec),
        "One or more values are out of range!"
    );
}

#[test]
fn test_run_genetic_algorithm_selection_rate_in_range() {
    let mut gen_alg = GenAlg::<DummyGenetic>::new(POP_SIZE, None);

    println!("{:?}", gen_alg.current_population());

    gen_alg
        .run_genetic_algorithm(NUM_GENS, Rate::new(1, 10), Rate::new(0, 1), 0)
        .unwrap();
    gen_alg
        .run_genetic_algorithm(NUM_GENS, Rate::new(2, 10), Rate::new(0, 1), 0)
        .unwrap();
    gen_alg
        .run_genetic_algorithm(NUM_GENS, Rate::new(5, 10), Rate::new(0, 1), 0)
        .unwrap();
    gen_alg
        .run_genetic_algorithm(NUM_GENS, Rate::new(8, 10), Rate::new(0, 1), 0)
        .unwrap();
    gen_alg
        .run_genetic_algorithm(NUM_GENS, Rate::new(9, 10), Rate::new(0, 1), 0)
        .unwrap();
    gen_alg
        .run_genetic_algorithm(NUM_GENS, Rate::new(1, 1), Rate::new(0, 1), 0)
        .unwrap();
}

#[test]
fn test_run_genetic_algorithm_dummy_fitness() {
    let mut gen_alg = GenAlg::<DummyGenetic>::new(FITNESS_TEST_POP_SIZE, None);
    let starting_fitness = gen_alg.get_total_fitness();

    println!("{:?}", gen_alg.current_population());

    gen_alg
        .run_genetic_algorithm(
            FITNESS_TEST_NUM_GENS,
            fitness_test_selection_rate(),
            fitness_test_mutation_rate(),
            FITNESS_TEST_ELITE_COUNT,
        )
        .unwrap();

    println!("{:?}", gen_alg.current_population());

    let final_fitness = gen_alg.get_total_fitness();
    println!("Starting fitness: {:?}", starting_fitness);
    println!("Final fitness: {:?}", final_fitness);

    assert!(
        final_fitness > starting_fitness / EXPECTED_DUMMY_TOTAL_FITNESS_IMPROVEMENT_FACTOR,
        "Total fitness largrly outside expectations. {:?} \nStarting fitness: {}, Final fitness: {}",
        gen_alg.current_population(),
        starting_fitness,
        final_fitness
    );
}

#[test]
fn test_run_genetic_algorithm_history() {
    let mut gen_alg = GenAlg::<DummyGenetic>::new(POP_SIZE, None);

    println!("{:?}", gen_alg.current_population());
    gen_alg
        .run_genetic_algorithm(1, Rate::new(5, 10), Rate::new(0, 1), 0)
        .unwrap();
    let second_pop = gen_alg.current_population().clone();
    gen_alg
        .run_genetic_algorithm(1, Rate::new(5, 10), Rate::new(0, 1), 0)
        .unwrap();
    let third_pop = gen_alg.current_population().clone();
    gen_alg
        .run_genetic_algorithm(1, Rate::new(5, 10), Rate::new(0, 1), 0)
        .unwrap();
    let fourth_pop = gen_alg.current_population().clone();
    gen_alg
        .run_genetic_algorithm(1, Rate::new(5, 10), Rate::new(0, 1), 0)
        .unwrap();

    assert!(are_populations_same(
        &second_pop,
        &gen_alg.population_history()[1].clone()
    ));
    assert!(are_populations_same(
        &third_pop,
        &gen_alg.population_history()[2].clone()
    ));
    assert!(are_populations_same(
        &fourth_pop,
        &gen_alg.population_history()[3].clone()
    ));
}

#[test]
fn run_rejects_a_selection_rate_that_selects_too_few() {
    let mut gen_alg = GenAlg::<DummyGenetic>::new(POP_SIZE, None);
    let before = gen_alg.current_population().clone();
    let result = gen_alg.run_genetic_algorithm(NUM_GENS, Rate::new(1, 1000), Rate::new(0, 1), 0);
    assert_eq!(result.err(), Some(ConfigError::SelectionTooSmall));
    assert_eq!(gen_alg.current_generation(), 0);
    assert_eq!(gen_alg.population_history().len(), 0);
    assert!(gen_alg.best_individual().is_none());
    assert!(are_populations_same(&before, gen_alg.current_population()));
    // one member short of two: 100 * 19 / 1000 = 1
    let result = gen_alg.run_genetic_algorithm(1, Rate::new(19, 1000), Rate::new(0, 1), 0);
    assert_eq!(result.err(), Some(ConfigError::SelectionTooSmall));
    // exactly two: 100 * 2 / 100 = 2
    assert!(gen_alg
        .run_genetic_algorithm(1, Rate::new(2, 100), Rate::new(0, 1), 0)
        .is_ok());
}

#[test]
fn run_rejects_rates_outside_the_unit_interval() {
    let mut gen_alg = GenAlg::<DummyGenetic>::new(POP_SIZE, None);
    let result = gen_alg.run_genetic_algorithm(NUM_GENS, Rate::new(2, 1), Rate::new(0, 1), 0);
    assert_eq!(result.err(), Some(ConfigError::SelectionRateOutOfRange));
    let result = gen_alg.run_genetic_algorithm(NUM_GENS, Rate::new(1, 0), Rate::new(0, 1), 0);
    assert_eq!(result.err(), Some(ConfigError::SelectionRateOutOfRange));
    let result = gen_alg.run_genetic_algorithm(NUM_GENS, Rate::new(1, 2), Rate::new(3, 2), 0);
    assert_eq!(result.err(), Some(ConfigError::MutationRateOutOfRange));
    let result = gen_alg.run_genetic_algorithm(NUM_GENS, Rate::new(1, 2), Rate::new(0, 0), 0);
    assert_eq!(result.err(), Some(ConfigError::MutationRateOutOfRange));
    // the mutation rate is looked at before the selection rate
    let result = gen_alg.run_genetic_algorithm(NUM_GENS, Rate::new(2, 1), Rate::new(3, 2), 0);
    assert_eq!(result.err(), Some(ConfigError::MutationRateOutOfRange));
    assert_eq!(gen_alg.current_generation(), 0);
}

#[test]
fn run_rejects_more_elite_members_than_the_population_has() {
    let mut gen_alg = GenAlg::<DummyGenetic>::new(POP_SIZE, None);
    let result =
        gen_alg.run_genetic_algorithm(NUM_GENS, Rate::new(1, 2), Rate::new(0, 1), POP_SIZE + 1);
    assert_eq!(result.err(), Some(ConfigError::EliteCountTooLarge));
    // it comes before every other complaint
    let result =
        gen_alg.run_genetic_algorithm(NUM_GENS, Rate::new(2, 1), Rate::new(2, 1), POP_SIZE + 1);
    assert_eq!(result.err(), Some(ConfigError::EliteCountTooLarge));
    assert!(gen_alg
        .run_genetic_algorithm(1, Rate::new(1, 2), Rate::new(0, 1), POP_SIZE)
        .is_ok());
}

#[test]
fn run_counts_generations_and_records_each() {
    let mut gen_alg = GenAlg::<DummyGenetic>::new(40, None);
    gen_alg
        .run_genetic_algorithm(7, Rate::new(1, 2), Rate::new(1, 10), 0)
        .unwrap();
    assert_eq!(gen_alg.current_generation(), 7);
    assert_eq!(gen_alg.population_history().len(), 7);
    gen_alg
        .run_genetic_algorithm(5, Rate::new(1, 4), Rate::new(1, 10), 3)
        .unwrap();
    assert_eq!(gen_alg.current_generation(), 12);
    assert_eq!(gen_alg.population_history().len(), 12);
    gen_alg
        .run_genetic_algorithm(0, Rate::new(1, 4), Rate::new(1, 10), 3)
        .unwrap();
    assert_eq!(gen_alg.current_generation(), 12);
    assert_eq!(gen_alg.population_history().len(), 12);
    for record in gen_alg.population_history() {
        assert_eq!(record.len(), 40);
        assert!(is_sorted(record));
    }
    assert_eq!(gen_alg.current_population().len(), 40);
    assert!(is_sorted(gen_alg.current_population()));
}

#[test]
fn best_never_gets_less_fit_over_runs() {
    let mut gen_alg = GenAlg::<DummyGenetic>::new(30, None);
    let mut last = i64::MIN;
    for _ in 0..20 {
        let best = gen_alg
            .run_genetic_algorithm(3, Rate::new(1, 2), Rate::new(1, 2), 0)
            .unwrap();
        assert!(best.fitness() >= last);
        assert_eq!(
            gen_alg.best_individual().as_ref().unwrap().fitness(),
            best.fitness()
        );
        assert!(best.fitness() >= gen_alg.current_population()[0].fitness());
        for record in gen_alg.population_history() {
            assert!(best.fitness() >= record[0].fitness());
        }
        last = best.fitness();
    }
}

#[test]
fn hundred_members_fifty_generations() {
    let mut gen_alg = GenAlg::<DummyGenetic>::new(100, None);
    let initial_best = gen_alg
        .current_population()
        .iter()
        .map(|m| m.fitness())
        .max()
        .unwrap();
    let best = gen_alg
        .run_genetic_algorithm(50, Rate::new(5, 10), Rate::new(1, 10), 0)
        .unwrap();
    assert!(best.fitness() >= initial_best);
    assert_eq!(gen_alg.current_generation(), 50);
}

#[test]
fn a_seed_population_is_taken_as_it_is() {
    let seed = vec![
        DummyGenetic { a: 1, b: 1 },
        DummyGenetic { a: 5, b: 1 },
        DummyGenetic { a: 2, b: 11 },
    ];
    let gen_alg = GenAlg::<DummyGenetic>::new(10, Some(&seed));
    assert_eq!(gen_alg.current_population().len(), 3);
    assert_eq!(gen_alg.current_generation(), 0);
    assert!(gen_alg.population_history().is_empty());
    for (member, given) in gen_alg.current_population().iter().zip(&seed) {
        assert_eq!(member.obj(), given);
        assert_eq!(member.fitness(), given.fitness());
        assert_eq!(member.into_tuple(), (given.fitness(), given.clone()));
    }
    assert_eq!(seed[0].fitness(), 1_000_000_000);
    assert_eq!(seed[1].fitness(), 250_000_000);
    assert_eq!(
        gen_alg.get_total_fitness(),
        seed.iter().map(|s| s.fitness() as i128).sum::<i128>()
    );
    assert_eq!(
        GenAlg::<DummyGenetic>::calc_total_fitness(gen_alg.current_population()),
        gen_alg.get_total_fitness()
    );
}

#[test]
fn rate_share_rounds_down() {
    assert_eq!(Rate::new(1, 2).of(7), 3);
    assert_eq!(Rate::new(1, 3).of(100), 33);
    assert_eq!(Rate::new(1, 1).of(usize::MAX), usize::MAX);
    assert_eq!(Rate::new(0, 5).of(1000), 0);
    assert!(Rate::new(1, 1).is_valid());
    assert!(!Rate::new(2, 1).is_valid());
    assert!(!Rate::new(0, 0).is_valid());
}

/// A program scored without the emulator: the fewer active instructions, the
/// fitter.
#[derive(Clone, Debug)]
struct ShortProgram(gen_alg::individual::dlx::individual::Individual);

impl Genetic for ShortProgram {
    fn generate() -> Self {
        let mut program = gen_alg::individual::dlx::individual::Individual::generate();
        for _ in 0..40 {
            program.add_rand_instruction();
        }
        ShortProgram(program)
    }

    fn fitness(&self) -> i64 {
        20000 - self.0.last_nop_index() as i64
    }

    fn crossover(&self, other: &Self) -> Self {
        ShortProgram(self.0.crossover(&other.0))
    }

    fn mutate(&mut self) {
        self.0.mutate()
    }
}

#[test]
fn a_search_on_programs_keeps_their_shape() {
    let mut gen_alg = GenAlg::<ShortProgram>::new(100, None);
    let initial_best = gen_alg
        .current_population()
        .iter()
        .map(|m| m.fitness())
        .max()
        .unwrap();
    let best = gen_alg
        .run_genetic_algorithm(50, Rate::new(5, 10), Rate::new(1, 10), 0)
        .unwrap();
    assert!(best.fitness() >= initial_best);
    assert_eq!(best.fitness(), 20000 - best.obj().0.last_nop_index() as i64);
    assert_eq!(gen_alg.current_generation(), 50);
    assert_eq!(gen_alg.population_history().len(), 50);
    assert_eq!(gen_alg.current_population().len(), 100);
    for member in gen_alg.current_population() {
        assert_eq!(member.obj().0.len(), 90);
        assert_eq!(member.obj().0.instructions().len(), 90);
        for label in member.obj().0.labels() {
            assert!(label.location < 90);
        }
    }
}

#[test]
fn the_last_generation_keeps_the_selected_members() {
    for _ in 0..20 {
        let mut gen_alg = GenAlg::<DummyGenetic>::new(20, None);
        gen_alg
            .run_genetic_algorithm(3, Rate::new(1, 4), Rate::new(1, 1), 0)
            .unwrap();
        let last = gen_alg.population_history().last().unwrap();
        let mut left: Vec<i64> = gen_alg
            .current_population()
            .iter()
            .map(|m| m.fitness())
            .collect();
        for kept in &last[..5] {
            let at = left
                .iter()
                .position(|f| *f == kept.fitness())
                .expect("a selected member is gone");
            left.remove(at);
        }
        assert!(gen_alg.current_population()[0].fitness() >= last[0].fitness());
    }
}

#[test]
fn the_first_record_is_the_sorted_start() {
    let seed = vec![
        DummyGenetic { a: 2, b: 11 },
        DummyGenetic { a: 1, b: 1 },
        DummyGenetic { a: 5, b: 1 },
        DummyGenetic { a: 7, b: 8 },
    ];
    let mut gen_alg = GenAlg::<DummyGenetic>::new(4, Some(&seed));
    gen_alg
        .run_genetic_algorithm(2, Rate::new(1, 2), Rate::new(1, 2), 0)
        .unwrap();
    let first: Vec<DummyGenetic> = gen_alg.population_history()[0]
        .iter()
        .map(|m| m.obj().clone())
        .collect();
    assert_eq!(
        first,
        vec![
            DummyGenetic { a: 1, b: 1 },
            DummyGenetic { a: 7, b: 8 },
            DummyGenetic { a: 5, b: 1 },
            DummyGenetic { a: 2, b: 11 },
        ]
    );
    let mut untouched = GenAlg::<DummyGenetic>::new(4, Some(&seed));
    let best = untouched
        .run_genetic_algorithm(0, Rate::new(1, 2), Rate::new(1, 2), 0)
        .unwrap();
    assert_eq!(best.obj(), &DummyGenetic { a: 1, b: 1 });
    assert_eq!(best.fitness(), 1_000_000_000);
    assert!(untouched.population_history().is_empty());
    let sorted: Vec<DummyGenetic> = untouched
        .current_population()
        .iter()
        .map(|m| m.obj().clone())
        .collect();
    assert_eq!(sorted, first);
}

/// A candidate whose changes can be counted.
#[derive(Clone, Debug, PartialEq)]
struct Counter {
    changes: i64,
}

impl Genetic for Counter {
    fn generate() -> Self {
        Counter { changes: 0 }
    }

    fn fitness(&self) -> i64 {
        10 * self.changes
    }

    fn crossover(&self, other: &Self) -> Self {
        Counter { changes: self.changes.max(other.changes) }
    }

    fn mutate(&mut self) {
        self.changes += 1;
    }
}

#[test]
fn a_mutated_member_is_scored_anew() {
    let mut member = FitnessIndiv::new(&Counter { changes: 4 });
    assert_eq!(member.fitness(), 40);
    member.mutate();
    assert_eq!(member.obj(), &Counter { changes: 5 });
    assert_eq!(member.fitness(), 50);
    let again = member.mutated();
    assert_eq!(again.obj(), &Counter { changes: 6 });
    assert_eq!(again.fitness(), 60);
}

#[test]
fn members_are_mutated_as_the_rate_says() {
    let start: Vec<FitnessIndiv<Counter>> = (0..50)
        .map(|n| FitnessIndiv::new(&Counter { changes: n }))
        .collect();

    let mut all = start.clone();
    gen_alg::genalg::mutate_members(&mut all, Rate::new(7, 7));
    assert_eq!(all.len(), 50);
    for (n, member) in all.iter().enumerate() {
        assert_eq!(member.obj(), &Counter { changes: n as i64 + 1 });
        assert_eq!(member.fitness(), 10 * (n as i64 + 1));
    }

    let mut none = start.clone();
    gen_alg::genalg::mutate_members(&mut none, Rate::new(0, 7));
    for (n, member) in none.iter().enumerate() {
        assert_eq!(member.obj(), &Counter { changes: n as i64 });
        assert_eq!(member.fitness(), 10 * n as i64);
    }

    let mut changed = 0;
    for _ in 0..40 {
        let mut some = start.clone();
        gen_alg::genalg::mutate_members(&mut some, Rate::new(1, 2));
        assert_eq!(some.len(), 50);
        for (n, member) in some.iter().enumerate() {
            let by = member.obj().changes - n as i64;
            assert!(by == 0 || by == 1);
            assert_eq!(member.fitness(), 10 * member.obj().changes);
            changed += by;
        }
    }
    assert!(0 < changed && changed < 2000);
}

#[test]
fn members_without_a_seed_are_scored_copies_of_generated_ones() {
    let gen_alg = GenAlg::<Counter>::new(7, None);
    assert_eq!(gen_alg.current_population().len(), 7);
    for member in gen_alg.current_population() {
        assert_eq!(member.obj(), &Counter::generate());
        assert_eq!(member.fitness(), member.obj().fitness());
    }
    let programs = GenAlg::<ShortProgram>::new(5, None);
    for member in programs.current_population() {
        assert_eq!(member.obj().0.len(), 90);
        assert_eq!(member.fitness(), member.obj().fitness());
    }
}

#[test]
fn a_tie_on_top_replaces_the_best() {
    let seed = vec![Counter { changes: 3 }, Counter { changes: 3 }, Counter { changes: 1 }];
    let population: Vec<FitnessIndiv<Counter>> = seed.iter().map(FitnessIndiv::new).collect();
    let tied = FitnessIndiv::new(&Counter { changes: 3 });
    let now = gen_alg::genalg::try_update_best_individual(Some(tied), &population);
    assert_eq!(now.obj(), population[0].obj());
    assert_eq!(now.fitness(), 30);
    let fitter = FitnessIndiv::new(&Counter { changes: 9 });
    let now = gen_alg::genalg::try_update_best_individual(Some(fitter), &population);
    assert_eq!(now.obj(), &Counter { changes: 9 });
    assert_eq!(now.fitness(), 90);
    let now = gen_alg::genalg::try_update_best_individual(None, &population);
    assert_eq!(now.obj(), &Counter { changes: 3 });
}

#[test]
fn one_generation_keeps_the_selected_and_crosses_the_rest() {
    let seed: Vec<Counter> = (0..10).map(|n| Counter { changes: n }).collect();
    let mut gen_alg = GenAlg::<Counter>::new(10, Some(&seed));
    gen_alg
        .run_genetic_algorithm(1, Rate::new(3, 10), Rate::new(1, 1), 0)
        .unwrap();
    let record: Vec<i64> = gen_alg.population_history()[0]
        .iter()
        .map(|m| m.obj().changes)
        .collect();
    assert_eq!(record, vec![9, 8, 7, 6, 5, 4, 3, 2, 1, 0]);
    let mut now: Vec<i64> = gen_alg
        .current_population()
        .iter()
        .map(|m| m.obj().changes)
        .collect();
    for member in gen_alg.current_population() {
        assert_eq!(member.fitness(), 10 * member.obj().changes);
    }
    // the three fittest, and seven children that take after the fitter parent
    for kept in [9, 8, 7] {
        let at = now.iter().position(|n| *n == kept).unwrap();
        now.remove(at);
    }
    assert_eq!(now.len(), 7);
    assert!(now.iter().all(|n| *n == 9 || *n == 8));

    // a generation that is not the last mutates every member at the rate one
    let mut two = GenAlg::<Counter>::new(10, Some(&seed));
    two.run_genetic_algorithm(2, Rate::new(3, 10), Rate::new(1, 1), 0)
        .unwrap();
    let second: Vec<i64> = two.population_history()[1]
        .iter()
        .map(|m| m.obj().changes)
        .collect();
    assert_eq!(second.len(), 10);
    // the three kept are 10, 9 and 8 by now, the children 10 or 9
    assert!(second.iter().all(|n| 8 <= *n && *n <= 10));
    assert_eq!(second.iter().filter(|n| **n == 8).count(), 1);
    assert_eq!(second[0], 10);
}

#[test]
fn refill_crosses_two_different_selected_members() {
    let seed: Vec<FitnessIndiv<Counter>> = [5, 2, 0]
        .iter()
        .map(|n| FitnessIndiv::new(&Counter { changes: *n }))
        .collect();
    for _ in 0..50 {
        let mut population = seed.clone();
        gen_alg::genalg::refill(&mut population, 2, 40);
        assert_eq!(population.len(), 40);
        assert_eq!(population[0].obj(), &Counter { changes: 5 });
        assert_eq!(population[1].obj(), &Counter { changes: 2 });
        assert_eq!(population[2].obj(), &Counter { changes: 0 });
        for child in &population[3..] {
            assert_eq!(child.obj(), &Counter { changes: 5 });
            assert_eq!(child.fitness(), 50);
        }
    }
}

#[test]
fn a_last_generation_keeps_the_selected_and_mutates_none() {
    let start: Vec<FitnessIndiv<Counter>> = [8, 6, 4, 2, 0]
        .iter()
        .map(|n| FitnessIndiv::new(&Counter { changes: *n }))
        .collect();
    for _ in 0..30 {
        let mut population = start.clone();
        gen_alg::genalg::advance_generation(&mut population, 2, Rate::new(1, 1), true);
        let now: Vec<i64> = population.iter().map(|m| m.obj().changes).collect();
        assert_eq!(now, vec![8, 8, 8, 8, 6]);

        let mut population = start.clone();
        gen_alg::genalg::advance_generation(&mut population, 2, Rate::new(1, 1), false);
        let now: Vec<i64> = population.iter().map(|m| m.obj().changes).collect();
        assert_eq!(now, vec![9, 9, 9, 9, 7]);
        for member in &population {
            assert_eq!(member.fitness(), 10 * member.obj().changes);
        }

        let mut population = start.clone();
        gen_alg::genalg::advance_generation(&mut population, 2, Rate::new(0, 1), false);
        let now: Vec<i64> = population.iter().map(|m| m.obj().changes).collect();
        assert_eq!(now, vec![8, 8, 8, 8, 6]);
    }
}

#[test]
fn generations_record_each_population_before_it_changes() {
    let mut history: Vec<Vec<FitnessIndiv<Counter>>> = Vec::new();
    let mut population: Vec<FitnessIndiv<Counter>> = [1, 7, 3, 5]
        .iter()
        .map(|n| FitnessIndiv::new(&Counter { changes: *n }))
        .collect();
    let best = gen_alg::genalg::run_generations(
        &mut history,
        &mut population,
        None,
        3,
        2,
        Rate::new(1, 1),
    );
    let records: Vec<Vec<i64>> = history
        .iter()
        .map(|r| r.iter().map(|m| m.obj().changes).collect())
        .collect();
    assert_eq!(
        records,
        vec![vec![7, 5, 3, 1], vec![8, 8, 8, 6], vec![9, 9, 9, 9]]
    );
    let now: Vec<i64> = population.iter().map(|m| m.obj().changes).collect();
    assert_eq!(now, vec![9, 9, 9, 9]);
    assert_eq!(best.obj(), &Counter { changes: 9 });
    assert_eq!(best.fitness(), 90);

    let fitter = FitnessIndiv::new(&Counter { changes: 50 });
    let best = gen_alg::genalg::run_generations(
        &mut history,
        &mut population,
        Some(fitter),
        0,
        2,
        Rate::new(1, 1),
    );
    assert_eq!(best.obj(), &Counter { changes: 50 });
    assert_eq!(history.len(), 3);
}
