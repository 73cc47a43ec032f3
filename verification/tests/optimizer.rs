use genes::genes::Genes;
use genes::options;
use genes::{Error, Optimizer, OptimizerBuilder, Target};
use rand::rngs::SmallRng;
use rand::SeedableRng;

struct S {}

impl Target for S {
    fn score(&mut self, _: &Genes) -> i64 {
        return 0;
    }
}

/// Scores a genome by its first 64-bit word.
struct FirstWord {}

impl Target for FirstWord {
    fn score(&mut self, genes: &Genes) -> i64 {
        (genes.g64(0) >> 1) as i64
    }
}

/// Scores a genome by the distance of its first byte from a fixed number.
struct Distance {
    actual: i64,
}

impl Target for Distance {
    fn score(&mut self, genes: &Genes) -> i64 {
        (genes.g8(0) as i64 - self.actual).abs()
    }
}

/// Remembers every genome it was asked to score.
struct Recording {
    seen: Vec<Vec<u8>>,
}

impl Target for Recording {
    fn score(&mut self, genes: &Genes) -> i64 {
        self.seen.push(genes.as_bytes().to_vec());
        genes.g8(0) as i64
    }
}

fn snapshot<T: Target>(optimizer: &Optimizer<T>) -> Vec<(i64, Vec<u8>)> {
    optimizer.population().iter().map(|m| (m.score, m.genes().as_bytes().to_vec())).collect()
}

fn genomes<T: Target>(optimizer: &Optimizer<T>) -> Vec<Vec<u8>> {
    optimizer.population().iter().map(|m| m.genes().as_bytes().to_vec()).collect()
}

#[test]
fn builder_can_build() {
    let target = S {};

    let _ = OptimizerBuilder::new()
        .size(100)
        .n(100)
        .mutation_rate(1, 10)
        .target(target)
        .target_type(options::TargetType::Maximize)
        .selection_method(options::SelectionMethod::Weighted)
        .crossover_method(options::CrossoverMethod::Barrier)
        .build();

    assert!(true);
}

#[test]
fn builder_builds_what_it_was_told() {
    let optimizer = OptimizerBuilder::new()
        .size(100)
        .n(100)
        .mutation_rate(1, 10)
        .target(S {})
        .build();
    let optimizer = match optimizer {
        Ok(optimizer) => optimizer,
        Err(_) => panic!("a valid configuration was rejected"),
    };
    assert_eq!(optimizer.size(), 100);
    assert_eq!(optimizer.population().len(), 100);
    for member in optimizer.population() {
        assert_eq!(member.score, 0);
        assert_eq!(member.genes().as_bytes().len(), 13);
    }
}

#[test]
fn builder_applies_defaults() {
    let optimizer = OptimizerBuilder::new().n(16).target(S {}).build();
    let optimizer = match optimizer {
        Ok(optimizer) => optimizer,
        Err(_) => panic!("a valid configuration was rejected"),
    };
    assert_eq!(optimizer.size(), 100);
    let by_default = OptimizerBuilder::<S>::default().n(16).target(S {}).seed(1).build();
    assert!(by_default.is_ok());
}

#[test]
fn population_size_below_two_is_rejected() {
    for size in [0u32, 1] {
        let built = OptimizerBuilder::new().size(size).n(8).target(S {}).build();
        assert!(matches!(built, Err(Error::InvalidConfiguration)));
    }
    for size in [2u32, 3, 4] {
        let built = OptimizerBuilder::new().size(size).n(8).target(S {}).build();
        assert!(built.is_ok());
    }
}

#[test]
fn mutation_rate_outside_zero_to_one_is_rejected() {
    // -0.1 and 1.5
    for (numerator, denominator) in [(-1i64, 10u32), (15, 10)] {
        let built =
            OptimizerBuilder::new().n(8).mutation_rate(numerator, denominator).target(S {}).build();
        assert!(matches!(built, Err(Error::InvalidConfiguration)));
    }
    for (numerator, denominator) in [(1i64, 0u32), (0, 0), (i64::MIN, 1), (i64::MAX, u32::MAX), (2, 1)] {
        let built =
            OptimizerBuilder::new().n(8).mutation_rate(numerator, denominator).target(S {}).build();
        assert!(matches!(built, Err(Error::InvalidConfiguration)));
    }
    for (numerator, denominator) in [(0i64, 1u32), (1, 1), (1, 20), (u32::MAX as i64, u32::MAX)] {
        let built =
            OptimizerBuilder::new().n(8).mutation_rate(numerator, denominator).target(S {}).build();
        assert!(built.is_ok());
    }
}

#[test]
fn missing_genome_length_or_target_is_rejected() {
    let no_length = OptimizerBuilder::new().size(10).target(S {}).build();
    assert!(matches!(no_length, Err(Error::InvalidConfiguration)));
    let no_target = OptimizerBuilder::<S>::new().size(10).n(8).build();
    assert!(matches!(no_target, Err(Error::InvalidConfiguration)));
    let nothing = OptimizerBuilder::<S>::new().build();
    assert!(matches!(nothing, Err(Error::InvalidConfiguration)));
}

#[test]
fn direct_construction_checks_the_same() {
    let make = |size: u32, numerator: i64, denominator: u32| {
        Optimizer::new(
            size,
            8,
            numerator,
            denominator,
            S {},
            options::TargetType::Minimize,
            options::SelectionMethod::Equal,
            options::CrossoverMethod::Random,
            Some(7),
        )
    };
    assert!(matches!(make(0, 1, 20), Err(Error::InvalidConfiguration)));
    assert!(matches!(make(1, 1, 20), Err(Error::InvalidConfiguration)));
    assert!(matches!(make(10, -1, 10), Err(Error::InvalidConfiguration)));
    assert!(matches!(make(10, 15, 10), Err(Error::InvalidConfiguration)));
    assert!(matches!(make(10, 1, 0), Err(Error::InvalidConfiguration)));
    match make(10, 1, 20) {
        Ok(optimizer) => assert_eq!(optimizer.size(), 10),
        Err(_) => panic!("a valid configuration was rejected"),
    }
}

#[test]
fn genome_length_decides_the_bytes() {
    for (n, bytes) in [(0u32, 0usize), (1, 1), (8, 1), (9, 2), (64, 8), (65, 9)] {
        let built = OptimizerBuilder::new().size(4).n(n).target(S {}).seed(3).build();
        match built {
            Ok(optimizer) => {
                for member in optimizer.population() {
                    assert_eq!(member.genes().as_bytes().len(), bytes);
                }
            }
            Err(_) => panic!("a valid configuration was rejected"),
        }
    }
}

#[test]
fn population_size_is_kept() {
    for size in [2u32, 3, 4, 5, 10, 101] {
        let mut optimizer = OptimizerBuilder::new()
            .size(size)
            .n(32)
            .target(FirstWord {})
            .seed(11)
            .build()
            .ok()
            .unwrap();
        assert_eq!(optimizer.size(), size as usize);
        for _ in 0..5 {
            optimizer.step();
            assert_eq!(optimizer.size(), size as usize);
            for member in optimizer.population() {
                assert_eq!(member.genes().as_bytes().len(), 4);
            }
        }
        optimizer.evolve(7);
        assert_eq!(optimizer.size(), size as usize);
        optimizer.evolve(0);
        assert_eq!(optimizer.size(), size as usize);
        let _ = optimizer.best();
        assert_eq!(optimizer.size(), size as usize);
    }
}

#[test]
fn survivors_are_the_best_scoring_candidates() {
    let mut optimizer = OptimizerBuilder::new()
        .size(10)
        .n(64)
        .target(FirstWord {})
        .seed(2024)
        .build()
        .ok()
        .unwrap();
    let mut scorer = FirstWord {};
    let mut before: Vec<(i64, Vec<u8>)> = optimizer
        .population()
        .iter()
        .map(|m| (scorer.score(m.genes()), m.genes().as_bytes().to_vec()))
        .collect();
    let mut distinct: Vec<i64> = before.iter().map(|m| m.0).collect();
    distinct.sort();
    distinct.dedup();
    assert_eq!(distinct.len(), 10);

    optimizer.step();

    before.sort();
    let after = snapshot(&optimizer);
    assert_eq!(after.len(), 10);
    for place in 0..5 {
        assert_eq!(after[place], before[place]);
    }
    // every place carries the score that the ranking put there
    for place in 0..10 {
        assert_eq!(after[place].0, before[place].0);
    }
}

#[test]
fn equal_scores_keep_their_order() {
    let mut optimizer =
        OptimizerBuilder::new().size(9).n(16).target(S {}).seed(5).build().ok().unwrap();
    let before = genomes(&optimizer);
    optimizer.step();
    let after = genomes(&optimizer);
    // floor(9 / 2) survivors, in the order in which they stood
    for place in 0..4 {
        assert_eq!(after[place], before[place]);
    }
    assert_eq!(after.len(), 9);
}

#[test]
fn scores_never_fall_along_the_population() {
    let mut optimizer = OptimizerBuilder::new()
        .size(20)
        .n(64)
        .target(FirstWord {})
        .seed(99)
        .build()
        .ok()
        .unwrap();
    for _ in 0..10 {
        optimizer.step();
        let after = snapshot(&optimizer);
        for place in 1..after.len() {
            assert!(after[place - 1].0 <= after[place].0);
        }
        let mut scorer = FirstWord {};
        for place in 0..10 {
            let member = &optimizer.population()[place];
            assert_eq!(member.score, scorer.score(member.genes()));
        }
    }
}

#[test]
fn every_candidate_is_scored_once_per_generation_in_order() {
    let mut optimizer = OptimizerBuilder::new()
        .size(6)
        .n(8)
        .target(Recording { seen: Vec::new() })
        .seed(8)
        .build()
        .ok()
        .unwrap();
    assert_eq!(optimizer.target().seen.len(), 0);
    let first = genomes(&optimizer);
    optimizer.step();
    assert_eq!(optimizer.target().seen, first);
    let second = genomes(&optimizer);
    optimizer.step();
    let third = genomes(&optimizer);
    let mut all = first.clone();
    all.extend(second.clone());
    assert_eq!(optimizer.target().seen, all);
    // `best` scores every candidate once more and stores nothing
    let before = snapshot(&optimizer);
    let picked = optimizer.best().as_bytes().to_vec();
    let lowest = third.iter().map(|g| g[0]).min().unwrap();
    let expected = third.iter().find(|g| g[0] == lowest).unwrap();
    assert_eq!(&picked, expected);
    all.extend(third.clone());
    assert_eq!(optimizer.target().seen, all);
    assert_eq!(snapshot(&optimizer), before);
}

#[test]
fn settings_are_handed_back() {
    let optimizer = OptimizerBuilder::new()
        .size(4)
        .n(12)
        .mutation_rate(3, 10)
        .target(S {})
        .target_type(options::TargetType::Minimize)
        .selection_method(options::SelectionMethod::EqualTournament)
        .crossover_method(options::CrossoverMethod::DoubleBarrier)
        .seed(1)
        .build()
        .ok()
        .unwrap();
    assert_eq!(optimizer.size(), 4);
    assert_eq!(optimizer.n(), 12);
    assert_eq!(optimizer.mutation_rate(), (3, 10));
    assert_eq!(optimizer.target_type(), options::TargetType::Minimize);
    assert_eq!(optimizer.selection_method(), options::SelectionMethod::EqualTournament);
    assert_eq!(optimizer.crossover_method(), options::CrossoverMethod::DoubleBarrier);
}

#[test]
fn defaults_are_a_hundred_candidates_and_one_mutation_in_twenty() {
    let mut optimizer = OptimizerBuilder::new().n(12).target(S {}).build().ok().unwrap();
    assert_eq!(optimizer.size(), 100);
    assert_eq!(optimizer.n(), 12);
    assert_eq!(optimizer.mutation_rate(), (1, 20));
    assert_eq!(optimizer.target_type(), options::TargetType::Maximize);
    assert_eq!(optimizer.selection_method(), options::SelectionMethod::Weighted);
    assert_eq!(optimizer.crossover_method(), options::CrossoverMethod::Barrier);
    optimizer.step();
    assert_eq!(optimizer.size(), 100);
    assert_eq!(optimizer.mutation_rate(), (1, 20));
    assert_eq!(optimizer.n(), 12);
}

#[test]
fn unseeded_optimizers_differ() {
    let one = OptimizerBuilder::new().size(8).n(256).target(S {}).build().ok().unwrap();
    let two = OptimizerBuilder::new().size(8).n(256).target(S {}).build().ok().unwrap();
    assert_ne!(genomes(&one), genomes(&two));
}

#[test]
fn best_is_the_first_lowest_and_changes_nothing() {
    let mut optimizer = OptimizerBuilder::new()
        .size(12)
        .n(8)
        .target(Distance { actual: 100 })
        .seed(77)
        .build()
        .ok()
        .unwrap();
    let before = snapshot(&optimizer);
    let picked = optimizer.best().as_bytes().to_vec();
    let lowest = before.iter().map(|m| (m.1[0] as i64 - 100).abs()).min().unwrap();
    let expected = before.iter().find(|m| (m.1[0] as i64 - 100).abs() == lowest).unwrap();
    assert_eq!(picked, expected.1);
    assert_eq!(snapshot(&optimizer), before);
    // with equal scores the first candidate is the best
    let mut flat =
        OptimizerBuilder::new().size(5).n(16).target(S {}).seed(1).build().ok().unwrap();
    let head = genomes(&flat)[0].clone();
    assert_eq!(flat.best().as_bytes(), &head[..]);
}

#[test]
fn same_seed_gives_the_same_generations() {
    let build = |seed: u64| {
        OptimizerBuilder::new()
            .size(16)
            .n(40)
            .mutation_rate(1, 5)
            .target(FirstWord {})
            .seed(seed)
            .build()
            .ok()
            .unwrap()
    };
    let mut one = build(314159);
    let mut two = build(314159);
    let mut other = build(271828);
    assert_eq!(snapshot(&one), snapshot(&two));
    assert_ne!(snapshot(&one), snapshot(&other));
    for _ in 0..20 {
        one.step();
        two.step();
        other.step();
        assert_eq!(snapshot(&one), snapshot(&two));
    }
    assert_eq!(one.best().as_bytes(), two.best().as_bytes());
    one.evolve(5);
    for _ in 0..5 {
        two.step();
    }
    assert_eq!(snapshot(&one), snapshot(&two));
}

#[test]
fn guessing_a_number_converges() {
    for seed in 0u64..20 {
        let mut optimizer = OptimizerBuilder::new()
            .size(100)
            .n(8)
            .target(Distance { actual: 24 })
            .seed(seed)
            .build()
            .ok()
            .unwrap();
        optimizer.evolve(100);
        let guess = optimizer.best().g8(0);
        assert_eq!(guess, 24);
    }
}

#[test]
fn without_mutation_a_lone_survivor_is_copied() {
    // two candidates leave one survivor, which is then both parents
    for seed in 0u64..10 {
        let mut optimizer = OptimizerBuilder::new()
            .size(2)
            .n(64)
            .mutation_rate(0, 1)
            .target(FirstWord {})
            .seed(seed)
            .build()
            .ok()
            .unwrap();
        let before = genomes(&optimizer);
        assert_ne!(before[0], before[1]);
        optimizer.step();
        let after = genomes(&optimizer);
        let better = if before[0] <= before[1] { &before[0] } else { &before[1] };
        assert_eq!(&after[0], better);
        assert_eq!(&after[1], better);
    }
}

#[test]
fn with_certain_mutation_every_gene_is_inverted() {
    for n in [64u32, 60, 57] {
        let mut optimizer = OptimizerBuilder::new()
            .size(3)
            .n(n)
            .mutation_rate(1, 1)
            .target(FirstWord {})
            .seed(21)
            .build()
            .ok()
            .unwrap();
        optimizer.step();
        let after = genomes(&optimizer);
        let survivor = Genes::new_with_genes(after[0].clone());
        for child in [&after[1], &after[2]] {
            let child = Genes::new_with_genes(child.clone());
            for gene in 0..64 {
                if gene < n {
                    assert_eq!(child.get(gene), 1 - survivor.get(gene));
                } else {
                    assert_eq!(child.get(gene), survivor.get(gene));
                }
            }
        }
    }
}

#[test]
fn without_mutation_children_carry_two_survivors_genes() {
    let mut optimizer = OptimizerBuilder::new()
        .size(10)
        .n(64)
        .mutation_rate(0, 7)
        .target(FirstWord {})
        .seed(1234)
        .build()
        .ok()
        .unwrap();
    for _ in 0..3 {
        optimizer.step();
        let after: Vec<Genes> =
            genomes(&optimizer).into_iter().map(Genes::new_with_genes).collect();
        for child in &after[5..] {
            let mut found = false;
            for first in 0..5 {
                for second in 0..5 {
                    if first != second
                        && (0..64).all(|gene| {
                            child.get(gene) == after[first].get(gene)
                                || child.get(gene) == after[second].get(gene)
                        })
                    {
                        found = true;
                    }
                }
            }
            assert!(found);
        }
    }
}

#[test]
fn empty_genomes_are_permitted() {
    let mut optimizer =
        OptimizerBuilder::new().size(6).n(0).target(S {}).seed(4).build().ok().unwrap();
    optimizer.evolve(3);
    assert_eq!(optimizer.size(), 6);
    for member in optimizer.population() {
        assert_eq!(member.genes().as_bytes().len(), 0);
    }
    assert_eq!(optimizer.best().g8(0), 0);
}

#[test]
fn genomes_hold_exactly_n_genes() {
    for (n, bytes, spare) in [(10u32, 2usize, 0b1111_1100u8), (12, 2, 0b1111_0000), (1, 1, 0b1111_1110), (17, 3, 0b1111_1110), (16, 2, 0)] {
        let mut optimizer = OptimizerBuilder::new()
            .size(8)
            .n(n)
            .mutation_rate(1, 1)
            .target(FirstWord {})
            .seed(42)
            .build()
            .ok()
            .unwrap();
        for round in 0..4 {
            for member in optimizer.population() {
                assert_eq!(member.genes().as_bytes().len(), bytes);
                // the bits past the last gene are never set
                assert_eq!(member.genes().as_bytes()[bytes - 1] & spare, 0);
                let mut copy = member.genes().clone();
                let before = copy.as_bytes().to_vec();
                for idx in [n, n + 1, n + 2, 8 * bytes as u32, n + 1000] {
                    assert_eq!(copy.get(idx), 0);
                    copy.set(idx);
                    copy.flip(idx);
                    assert_eq!(copy.get(idx), 0);
                }
                assert_eq!(copy.as_bytes(), &before[..]);
                let last = n - 1;
                let was = copy.get(last);
                copy.flip(last);
                assert_eq!(copy.get(last), 1 - was);
            }
            if round < 3 {
                optimizer.step();
            }
        }
    }
}

#[test]
fn random_genomes_use_every_gene() {
    // over many candidates every one of the ten genes is 1 somewhere and 0 somewhere
    let optimizer =
        OptimizerBuilder::new().size(200).n(10).target(S {}).seed(6).build().ok().unwrap();
    for gene in 0..10 {
        let ones = optimizer.population().iter().filter(|m| m.genes().get(gene) == 1).count();
        assert!(ones > 0 && ones < 200);
    }
}

#[test]
fn with_generator_draws_from_the_generator_it_is_given() {
    let make = |size: u32, numerator: i64, denominator: u32, seed: u64| {
        Optimizer::with_generator(
            size,
            40,
            numerator,
            denominator,
            FirstWord {},
            options::TargetType::Minimize,
            options::SelectionMethod::Equal,
            options::CrossoverMethod::Random,
            SmallRng::seed_from_u64(seed),
        )
    };
    assert!(matches!(make(0, 1, 20, 1), Err(Error::InvalidConfiguration)));
    assert!(matches!(make(1, 1, 20, 1), Err(Error::InvalidConfiguration)));
    assert!(matches!(make(6, -1, 10, 1), Err(Error::InvalidConfiguration)));
    assert!(matches!(make(6, 3, 2, 1), Err(Error::InvalidConfiguration)));
    assert!(matches!(make(6, 1, 0, 1), Err(Error::InvalidConfiguration)));
    let mut given = make(6, 1, 5, 77).ok().unwrap();
    let mut seeded = Optimizer::new(
        6,
        40,
        1,
        5,
        FirstWord {},
        options::TargetType::Minimize,
        options::SelectionMethod::Equal,
        options::CrossoverMethod::Random,
        Some(77),
    )
    .ok()
    .unwrap();
    assert_eq!(given.size(), 6);
    assert_eq!(snapshot(&given), snapshot(&seeded));
    for _ in 0..5 {
        given.step();
        seeded.step();
        assert_eq!(snapshot(&given), snapshot(&seeded));
    }
    let other = make(6, 1, 5, 78).ok().unwrap();
    assert_ne!(genomes(&other), genomes(&make(6, 1, 5, 77).ok().unwrap()));
}

#[test]
fn best_draws_nothing() {
    let build = || {
        OptimizerBuilder::new()
            .size(10)
            .n(24)
            .mutation_rate(1, 4)
            .target(FirstWord {})
            .seed(9)
            .build()
            .ok()
            .unwrap()
    };
    let mut asked = build();
    let mut plain = build();
    for _ in 0..5 {
        let first = asked.best().as_bytes().to_vec();
        let second = asked.best().as_bytes().to_vec();
        assert_eq!(first, second);
        asked.evolve(0);
        asked.step();
        plain.step();
        assert_eq!(snapshot(&asked), snapshot(&plain));
    }
}

#[test]
fn a_seed_or_the_system_seeds_the_generator() {
    // with a seed a valid configuration never fails
    for seed in [0u64, 1, u64::MAX] {
        assert!(OptimizerBuilder::new().n(8).target(S {}).seed(seed).build().is_ok());
    }
    // without one the operating system is asked; an invalid configuration is
    // reported before that
    let unseeded = OptimizerBuilder::new().n(8).target(S {}).build();
    assert!(!matches!(unseeded, Err(Error::InvalidConfiguration)));
    let invalid = OptimizerBuilder::new().size(1).n(8).target(S {}).build();
    assert!(matches!(invalid, Err(Error::InvalidConfiguration)));
}
