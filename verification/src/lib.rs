//! A genetic-algorithm engine over bit-packed genomes.
//!
//! An [`Optimizer`] holds a population of candidates and a [`Target`] that
//! scores them. Each generation scores every candidate, ranks the population
//! with the lowest score first, keeps the better half and fills the other half
//! with children of the survivors.

pub mod breeding;
pub mod generation;
pub mod genes;
pub mod individual;
pub mod options;
pub mod random;
pub mod ranking;

use crate::breeding::{
    choose_mate, cross_gene, crossed, law_offspring_keeps_size, law_offspring_keeps_tail,
    lemma_crossed_reads_prefix, lemma_mutated_reads_prefix, mutate_gene, mutated,
};
use crate::generation::{
    follows, has_shape, is_bred, is_child, is_evolution, is_generation, is_probability, is_ranked,
    rank, recorded_scores, survivors, Draw, Settings,
};
use crate::genes::{bytes_for, law_fresh_tail_is_clear, law_write_keeps_tail, law_zeroed, Genes};
use crate::individual::Individual;
use crate::options::{CrossoverMethod, SelectionMethod, TargetType};
use crate::random::{below, byte, chance, from_system, seeded};
use crate::ranking::{is_top, top_ranked};
use rand::rngs::SmallRng;
use vstd::prelude::*;

verus! {

/// The population size of an optimizer that was built without one.
pub const DEFAULT_POP_SIZE: u32 = 100;

/// The mutation probability of an optimizer that was built without one is
/// `DEFAULT_MUT_RATE_NUMERATOR / DEFAULT_MUT_RATE_DENOMINATOR`, one in twenty.
pub const DEFAULT_MUT_RATE_NUMERATOR: i64 = 1;

pub const DEFAULT_MUT_RATE_DENOMINATOR: u32 = 20;

pub const DEFAULT_TGT_TYPE: TargetType = TargetType::Maximize;

pub const DEFAULT_SEL_METH: SelectionMethod = SelectionMethod::Weighted;

pub const DEFAULT_CRS_METH: CrossoverMethod = CrossoverMethod::Barrier;

/// Why an optimizer could not be made.
#[derive(Clone, Copy, Debug, PartialEq, Eq, Structural)]
pub enum Error {
    /// The population has fewer than two members, the mutation rate is no
    /// probability, or the genome length or the target is missing.
    InvalidConfiguration,
    /// No seed was given, and the operating system had no entropy to seed the
    /// random generator with.
    EntropyUnavailable,
}

/// A scoring function: the lower the score of a genome, the better.
///
/// Scoring may change the target itself. The optimizer scores one genome at a
/// time, in the order of the population.
pub trait Target {
    fn score(&mut self, genes: &Genes) -> i64;
}

/// A population that evolves towards lower scores.
pub struct Optimizer<T: Target> {
    population: Vec<Individual>,
    n: u32,
    mutation_numerator: u32,
    mutation_denominator: u32,
    target: T,
    target_type: TargetType,
    selection_method: SelectionMethod,
    crossover_method: CrossoverMethod,
    rng: SmallRng,
}

impl<T: Target> Optimizer<T> {
    /// The candidates, in their current order.
    pub closed spec fn members(&self) -> Seq<Individual> {
        self.population@
    }

    /// What the optimizer was configured with.
    pub closed spec fn settings(&self) -> Settings {
        Settings {
            genome_bits: self.n as nat,
            mutation_numerator: self.mutation_numerator as nat,
            mutation_denominator: self.mutation_denominator as nat,
            target_type: self.target_type,
            selection_method: self.selection_method,
            crossover_method: self.crossover_method,
        }
    }

    /// The scoring function in its current state.
    pub closed spec fn scorer(&self) -> T {
        self.target
    }

    /// The random generator in its current state.
    pub closed spec fn generator(&self) -> SmallRng {
        self.rng
    }

    /// The optimizer is well formed: it has at least two members, each with a
    /// genome of the configured length, and its mutation rate is a
    /// probability. Every optimizer that this library hands out is.
    pub open spec fn wf(&self) -> bool {
        &&& self.members().len() >= 2
        &&& is_probability(
            self.settings().mutation_numerator as int,
            self.settings().mutation_denominator as int,
        )
        &&& forall|i: int|
            0 <= i < self.members().len() ==> has_shape(
                (#[trigger] self.members()[i]).genes@,
                self.settings().genome_bits,
            )
    }

    /// The optimizer has just been made: `size` members with score 0, the
    /// given settings and the given target.
    pub open spec fn is_fresh(&self, size: nat, settings: Settings, target: T) -> bool {
        &&& self.wf()
        &&& self.members().len() == size
        &&& self.settings() == settings
        &&& self.scorer() == target
        &&& forall|i: int| 0 <= i < self.members().len() ==> (#[trigger] self.members()[i]).score == 0
    }

    /// Makes an optimizer of `size` candidates with `n` genes each, every gene
    /// drawn at random. The mutation probability is
    /// `mutation_numerator / mutation_denominator`. The generator is seeded
    /// with `seed`, or from the operating system where there is none.
    ///
    /// Fails with `InvalidConfiguration` where `size` is below 2 or the
    /// mutation rate is no probability. Fails with `EntropyUnavailable` where
    /// the configuration is valid, no seed was given and the operating system
    /// has no entropy to give; with a seed a valid configuration never fails.
    pub fn new(
        size: u32,
        n: u32,
        mutation_numerator: i64,
        mutation_denominator: u32,
        target: T,
        target_type: TargetType,
        selection_method: SelectionMethod,
        crossover_method: CrossoverMethod,
        seed: Option<u64>,
    ) -> (r: Result<Optimizer<T>, Error>)
        ensures
            (r matches Err(e) && e == Error::InvalidConfiguration) <==> size < 2 || !is_probability(
                mutation_numerator as int,
                mutation_denominator as int,
            ),
            (r matches Err(e) && e == Error::EntropyUnavailable) ==> seed is None,
            r matches Ok(made) ==> made.is_fresh(
                size as nat,
                Settings {
                    genome_bits: n as nat,
                    mutation_numerator: mutation_numerator as nat,
                    mutation_denominator: mutation_denominator as nat,
                    target_type,
                    selection_method,
                    crossover_method,
                },
                target,
            ),
    {
        if size < 2 || mutation_denominator == 0 || mutation_numerator < 0 || mutation_numerator
            > mutation_denominator as i64 {
            return Err(Error::InvalidConfiguration);
        }
        let rng = match seed {
            Some(seed) => seeded(seed),
            None => match from_system() {
                Some(rng) => rng,
                None => {
                    return Err(Error::EntropyUnavailable);
                },
            },
        };
        Self::with_generator(
            size,
            n,
            mutation_numerator,
            mutation_denominator,
            target,
            target_type,
            selection_method,
            crossover_method,
            rng,
        )
    }

    /// Makes an optimizer of `size` candidates with `n` genes each, every gene
    /// drawn from `rng`, which the optimizer then keeps for its later draws.
    /// The mutation probability is `mutation_numerator / mutation_denominator`.
    ///
    /// Fails where `size` is below 2 or the mutation rate is no probability,
    /// and only there.
    pub fn with_generator(
        size: u32,
        n: u32,
        mutation_numerator: i64,
        mutation_denominator: u32,
        target: T,
        target_type: TargetType,
        selection_method: SelectionMethod,
        crossover_method: CrossoverMethod,
        rng: SmallRng,
    ) -> (r: Result<Optimizer<T>, Error>)
        ensures
            r is Err <==> size < 2 || !is_probability(
                mutation_numerator as int,
                mutation_denominator as int,
            ),
            r matches Err(e) ==> e == Error::InvalidConfiguration,
            r matches Ok(made) ==> made.is_fresh(
                size as nat,
                Settings {
                    genome_bits: n as nat,
                    mutation_numerator: mutation_numerator as nat,
                    mutation_denominator: mutation_denominator as nat,
                    target_type,
                    selection_method,
                    crossover_method,
                },
                target,
            ),
    {
        if size < 2 || mutation_denominator == 0 || mutation_numerator < 0 || mutation_numerator
            > mutation_denominator as i64 {
            return Err(Error::InvalidConfiguration);
        }
        let mut rng = rng;
        let mut population: Vec<Individual> = Vec::with_capacity(size as usize);
        let mut made: u32 = 0;
        while made < size
            invariant
                made <= size,
                population@.len() == made,
                forall|i: int|
                    0 <= i < population@.len() ==> (#[trigger] population@[i]).score == 0
                        && has_shape(population@[i].genes@, n as nat),
            decreases size - made,
        {
            let genes = random_genome(&mut rng, n);
            population.push(Individual { score: 0, genes });
            made += 1;
        }
        Ok(
            Optimizer {
                population,
                n,
                mutation_numerator: mutation_numerator as u32,
                mutation_denominator,
                target,
                target_type,
                selection_method,
                crossover_method,
                rng,
            },
        )
    }

    /// The number of candidates.
    pub fn size(&self) -> (r: usize)
        ensures
            r == self.members().len(),
    {
        self.population.len()
    }

    /// The candidates, in their current order.
    pub fn population(&self) -> (r: &Vec<Individual>)
        ensures
            r@ == self.members(),
    {
        &self.population
    }

    /// The scoring function in its current state.
    pub fn target(&self) -> (r: &T)
        ensures
            *r == self.scorer(),
    {
        &self.target
    }

    /// The number of genes of each candidate.
    pub fn n(&self) -> (r: u32)
        ensures
            r == self.settings().genome_bits,
    {
        self.n
    }

    /// Numerator and denominator of the mutation probability.
    pub fn mutation_rate(&self) -> (r: (u32, u32))
        ensures
            r.0 == self.settings().mutation_numerator,
            r.1 == self.settings().mutation_denominator,
    {
        (self.mutation_numerator, self.mutation_denominator)
    }

    /// What was recorded on whether a lower or a higher score is wanted.
    pub fn target_type(&self) -> (r: TargetType)
        ensures
            r == self.settings().target_type,
    {
        self.target_type
    }

    /// What was recorded on how parents are chosen.
    pub fn selection_method(&self) -> (r: SelectionMethod)
        ensures
            r == self.settings().selection_method,
    {
        self.selection_method
    }

    /// What was recorded on how genes are combined.
    pub fn crossover_method(&self) -> (r: CrossoverMethod)
        ensures
            r == self.settings().crossover_method,
    {
        self.crossover_method
    }

    /// Runs `epochs` generations, one after the other.
    pub fn evolve(&mut self, epochs: u32)
        requires
            old(self).wf(),
        ensures
            final(self).wf(),
            final(self).settings() == old(self).settings(),
            final(self).members().len() == old(self).members().len(),
            exists|history: Seq<Seq<Individual>>|
                is_evolution(
                    old(self).members(),
                    history,
                    final(self).members(),
                    epochs as nat,
                    old(self).settings(),
                ),
            epochs == 0 ==> *final(self) == *old(self),
    {
        let ghost mut history: Seq<Seq<Individual>> = seq![self.population@];
        let mut done: u32 = 0;
        while done < epochs
            invariant
                done <= epochs,
                done == 0 ==> *self == *old(self),
                self.wf(),
                self.settings() == old(self).settings(),
                self.members().len() == old(self).members().len(),
                is_evolution(
                    old(self).members(),
                    history,
                    self.members(),
                    done as nat,
                    old(self).settings(),
                ),
            decreases epochs - done,
        {
            let ghost earlier = history;
            self.step();
            proof {
                history = earlier.push(self.members());
                assert forall|g: int| 0 <= g < done + 1 implies follows(
                    #[trigger] history[g],
                    history[g + 1],
                    old(self).settings(),
                ) by {
                    if g < done {
                        assert(follows(earlier[g], earlier[g + 1], old(self).settings()));
                    }
                }
            }
            done += 1;
        }
    }

    /// Runs one generation: scores every candidate, ranks the population with
    /// the lowest score first, keeps the better half as it is and replaces
    /// each member of the other half by a child of two survivors.
    pub fn step(&mut self)
        requires
            old(self).wf(),
        ensures
            final(self).wf(),
            final(self).settings() == old(self).settings(),
            final(self).members().len() == old(self).members().len(),
            follows(old(self).members(), final(self).members(), old(self).settings()),
    {
        let ghost before = self.population@;
        let ghost settings = self.settings();
        self.evaluate();
        let ghost evaluated = self.population@;
        let ghost scores = recorded_scores(evaluated);
        rank(&mut self.population);
        let ghost order = choose|order: Seq<usize>| is_ranked(evaluated, order, self.population@);
        let ghost ranked = self.population@;

        let current_size = self.population.len();
        let keep = current_size / 2;
        let ghost mut draws: Seq<Draw> = Seq::new(
            keep as nat,
            |i: int| Draw { first: 0, second: 0, picks: Seq::empty(), flips: Seq::empty() },
        );
        let mut idx: usize = keep;
        while idx < current_size
            invariant
                keep <= idx <= current_size,
                keep == survivors(current_size as nat),
                current_size >= 2,
                current_size == self.population@.len(),
                current_size == ranked.len(),
                self.settings() == settings,
                is_probability(
                    settings.mutation_numerator as int,
                    settings.mutation_denominator as int,
                ),
                draws.len() == idx,
                forall|i: int| 0 <= i < keep ==> #[trigger] self.population@[i] == ranked[i],
                forall|i: int|
                    0 <= i < current_size ==> (#[trigger] self.population@[i]).score
                        == ranked[i].score,
                forall|i: int|
                    0 <= i < current_size ==> has_shape(
                        (#[trigger] self.population@[i]).genes@,
                        settings.genome_bits,
                    ),
                forall|i: int|
                    keep <= i < idx ==> is_child(
                        self.population@,
                        keep as int,
                        #[trigger] draws[i],
                        self.population@[i].genes@,
                        settings,
                    ),
            decreases current_size - idx,
        {
            let parent1_idx = below(&mut self.rng, keep);
            let parent2_idx = if keep >= 2 {
                choose_mate(parent1_idx, below(&mut self.rng, keep - 1))
            } else {
                parent1_idx
            };
            let parent1 = self.population[parent1_idx].genes.clone();
            let parent2 = self.population[parent2_idx].genes.clone();
            let ghost held = self.population@;
            let child = self.crossover(&parent1, &parent2);
            proof {
                let (picks, flips) = choose|picks: Seq<bool>, flips: Seq<bool>|
                    is_bred(parent1@, parent2@, picks, flips, child@, settings);
                law_offspring_keeps_size(parent1@, parent2@, picks, flips, settings.genome_bits);
                law_offspring_keeps_tail(parent1@, parent2@, picks, flips, settings.genome_bits);
                draws = draws.push(
                    Draw { first: parent1_idx as int, second: parent2_idx as int, picks, flips },
                );
            }
            self.population[idx].genes = child;
            proof {
                assert forall|i: int| keep <= i < idx + 1 implies is_child(
                    self.population@,
                    keep as int,
                    #[trigger] draws[i],
                    self.population@[i].genes@,
                    settings,
                ) by {
                    if i < idx {
                        assert(is_child(held, keep as int, draws[i], held[i].genes@, settings));
                    }
                }
            }
            idx += 1;
        }
        proof {
            assert forall|i: int| 0 <= i < current_size implies (
            #[trigger] self.population@[i]).score == scores[order[i] as int] by {
                assert(ranked[i] == evaluated[order[i] as int]);
            }
            assert forall|i: int| 0 <= i < keep implies (#[trigger] self.population@[i]).genes@
                == before[order[i] as int].genes@ by {
                assert(ranked[i] == evaluated[order[i] as int]);
            }
            assert(is_generation(before, scores, order, draws, self.population@, settings));
        }
    }

    /// Scores every candidate afresh and returns the genes of the best one:
    /// the first candidate with the lowest score. The population and the
    /// random generator stay as they are; the scores are not stored.
    pub fn best(&mut self) -> (r: &Genes)
        requires
            old(self).wf(),
        ensures
            final(self).wf(),
            final(self).settings() == old(self).settings(),
            final(self).members() == old(self).members(),
            final(self).generator() == old(self).generator(),
            exists|scores: Seq<i64>, k: int|
                scores.len() == final(self).members().len() && #[trigger] is_top(scores, k) && *r
                    == final(self).members()[k].genes,
    {
        let size = self.population.len();
        let mut scores: Vec<i64> = Vec::with_capacity(size);
        let mut i: usize = 0;
        while i < size
            invariant
                i <= size,
                size == self.population@.len(),
                scores@.len() == i,
                self.population@ == old(self).population@,
                self.rng == old(self).rng,
                self.settings() == old(self).settings(),
            decreases size - i,
        {
            let score = self.target.score(&self.population[i].genes);
            scores.push(score);
            i += 1;
        }
        let k = match top_ranked(&scores) {
            Some(k) => k,
            None => 0,
        };
        assert(is_top(scores@, k as int));
        &self.population[k].genes
    }

    /// Scores every candidate and stores the score with it. Genes, settings
    /// and the random generator stay as they are.
    fn evaluate(&mut self)
        ensures
            final(self).rng == old(self).rng,
            final(self).population@.len() == old(self).population@.len(),
            forall|i: int|
                0 <= i < final(self).population@.len() ==> (#[trigger] final(self).population@[i]).genes
                    == old(self).population@[i].genes,
            final(self).settings() == old(self).settings(),
    {
        let size = self.population.len();
        let mut i: usize = 0;
        while i < size
            invariant
                i <= size,
                size == self.population@.len(),
                size == old(self).population@.len(),
                self.rng == old(self).rng,
                forall|j: int|
                    0 <= j < size ==> (#[trigger] self.population@[j]).genes == old(
                        self,
                    ).population@[j].genes,
                self.settings() == old(self).settings(),
            decreases size - i,
        {
            let score = self.target.score(&self.population[i].genes);
            self.population[i].score = score;
            i += 1;
        }
    }

    /// Breeds a child of `first` and `second`: for each gene a fair coin names the
    /// parent that gives it, and afterwards each gene is inverted with the
    /// mutation probability.
    fn crossover(&mut self, first: &Genes, second: &Genes) -> (c: Genes)
        requires
            is_probability(
                old(self).mutation_numerator as int,
                old(self).mutation_denominator as int,
            ),
        ensures
            final(self).population == old(self).population,
            final(self).target == old(self).target,
            final(self).settings() == old(self).settings(),
            exists|picks: Seq<bool>, flips: Seq<bool>|
                is_bred(first@, second@, picks, flips, c@, old(self).settings()),
    {
        let mut c = first.clone();
        let ghost mut picks: Seq<bool> = Seq::empty();
        let mut idx: u32 = 0;
        while idx < self.n
            invariant
                idx <= self.n,
                self.population == old(self).population,
                self.target == old(self).target,
                self.settings() == old(self).settings(),
                picks.len() == idx,
                c@ == crossed(first@, second@, picks, idx as nat),
            decreases self.n - idx,
        {
            let from_first = chance(&mut self.rng, 1, 2);
            cross_gene(&mut c, first, second, idx, from_first);
            proof {
                lemma_crossed_reads_prefix(first@, second@, picks, picks.push(from_first), idx as nat);
                picks = picks.push(from_first);
            }
            idx += 1;
        }
        let ghost crossing = c@;
        let ghost mut flips: Seq<bool> = Seq::empty();
        let mut idx: u32 = 0;
        while idx < self.n
            invariant
                idx <= self.n,
                self.population == old(self).population,
                self.target == old(self).target,
                self.settings() == old(self).settings(),
                is_probability(self.mutation_numerator as int, self.mutation_denominator as int),
                flips.len() == idx,
                self.mutation_numerator == 0 ==> forall|j: int|
                    0 <= j < flips.len() ==> !#[trigger] flips[j],
                self.mutation_numerator == self.mutation_denominator ==> forall|j: int|
                    0 <= j < flips.len() ==> #[trigger] flips[j],
                c@ == mutated(crossing, flips, idx as nat),
            decreases self.n - idx,
        {
            let flip = chance(&mut self.rng, self.mutation_numerator, self.mutation_denominator);
            mutate_gene(&mut c, idx, flip);
            proof {
                lemma_mutated_reads_prefix(crossing, flips, flips.push(flip), idx as nat);
                flips = flips.push(flip);
            }
            idx += 1;
        }
        assert(is_bred(first@, second@, picks, flips, c@, old(self).settings()));
        c
    }
}

/// Draws a genome of `n` genes: one byte from `rng` for every eight genes, each
/// gene taking one bit of it. Bits that are drawn for no gene are dropped.
fn random_genome(rng: &mut SmallRng, n: u32) -> (genes: Genes)
    ensures
        has_shape(genes@, n as nat),
{
    let whole: u32 = n / 8;
    let length: u32 = if n % 8 == 0 {
        whole
    } else {
        whole + 1
    };
    let mut genes = Genes::new(n);
    proof {
        law_zeroed(n as nat, 0);
        law_fresh_tail_is_clear(n as nat, Seq::empty());
    }
    let mut filled: u32 = 0;
    while filled < length
        invariant
            filled <= length,
            length == bytes_for(n as nat),
            has_shape(genes@, n as nat),
        decreases length - filled,
    {
        let drawn = byte(rng);
        let mut place: u8 = 0;
        while place < 8
            invariant
                place <= 8,
                filled < length,
                length == bytes_for(n as nat),
                has_shape(genes@, n as nat),
            decreases 8 - place,
        {
            proof {
                law_write_keeps_tail(genes@, filled * 8 + place, (drawn >> place) & 1);
            }
            genes.assign(filled * 8 + place as u32, (drawn >> place) & 1);
            place += 1;
        }
        filled += 1;
    }
    genes
}

/// What a builder has been told so far.
pub struct Plan<T> {
    pub size: Option<u32>,
    pub n: Option<u32>,
    /// Numerator and denominator of the mutation probability.
    pub mutation_rate: Option<(i64, u32)>,
    pub target: Option<T>,
    pub target_type: Option<TargetType>,
    pub selection_method: Option<SelectionMethod>,
    pub crossover_method: Option<CrossoverMethod>,
    pub seed: Option<u64>,
}

impl<T> Plan<T> {
    /// The plan that nothing has been told.
    pub open spec fn empty() -> Plan<T> {
        Plan {
            size: None,
            n: None,
            mutation_rate: None,
            target: None,
            target_type: None,
            selection_method: None,
            crossover_method: None,
            seed: None,
        }
    }

    /// The population size that was given, or else the default.
    pub open spec fn population_size(self) -> u32 {
        match self.size {
            Some(size) => size,
            None => DEFAULT_POP_SIZE,
        }
    }

    /// The mutation rate that was given, or else the default.
    pub open spec fn rate(self) -> (i64, u32) {
        match self.mutation_rate {
            Some(rate) => rate,
            None => (DEFAULT_MUT_RATE_NUMERATOR, DEFAULT_MUT_RATE_DENOMINATOR),
        }
    }

    /// An optimizer can be built: the genome length and the target are there,
    /// the population has at least two members and the mutation rate is a
    /// probability.
    pub open spec fn is_buildable(self) -> bool {
        &&& self.n is Some
        &&& self.target is Some
        &&& self.population_size() >= 2
        &&& is_probability(self.rate().0 as int, self.rate().1 as int)
    }

    /// The settings of the optimizer that is built, with the default for each
    /// choice that was not given.
    pub open spec fn settings(self) -> Settings {
        Settings {
            genome_bits: self.n->0 as nat,
            mutation_numerator: self.rate().0 as nat,
            mutation_denominator: self.rate().1 as nat,
            target_type: match self.target_type {
                Some(choice) => choice,
                None => DEFAULT_TGT_TYPE,
            },
            selection_method: match self.selection_method {
                Some(choice) => choice,
                None => DEFAULT_SEL_METH,
            },
            crossover_method: match self.crossover_method {
                Some(choice) => choice,
                None => DEFAULT_CRS_METH,
            },
        }
    }
}

/// Collects the settings for an optimizer one by one. The genome length and
/// the target have to be given; everything else has a default.
pub struct OptimizerBuilder<T: Target> {
    size: Option<u32>,
    n: Option<u32>,
    mutation_rate: Option<(i64, u32)>,
    target: Option<T>,
    target_type: Option<TargetType>,
    selection_method: Option<SelectionMethod>,
    crossover_method: Option<CrossoverMethod>,
    seed: Option<u64>,
}

impl<T: Target> View for OptimizerBuilder<T> {
    type V = Plan<T>;

    closed spec fn view(&self) -> Plan<T> {
        Plan {
            size: self.size,
            n: self.n,
            mutation_rate: self.mutation_rate,
            target: self.target,
            target_type: self.target_type,
            selection_method: self.selection_method,
            crossover_method: self.crossover_method,
            seed: self.seed,
        }
    }
}

impl<T: Target> Default for OptimizerBuilder<T> {
    fn default() -> (r: Self)
        ensures
            r@ == Plan::<T>::empty(),
    {
        OptimizerBuilder {
            size: None,
            n: None,
            mutation_rate: None,
            target: None,
            target_type: None,
            selection_method: None,
            crossover_method: None,
            seed: None,
        }
    }
}

impl<T: Target> OptimizerBuilder<T> {
    /// A builder that has been told nothing yet.
    pub fn new() -> (r: OptimizerBuilder<T>)
        ensures
            r@ == Plan::<T>::empty(),
    {
        Default::default()
    }

    /// Sets the number of candidates.
    pub fn size(self, size: u32) -> (r: OptimizerBuilder<T>)
        ensures
            r@ == (Plan { size: Some(size), ..self@ }),
    {
        OptimizerBuilder { size: Some(size), ..self }
    }

    /// Sets the number of genes of each candidate.
    pub fn n(self, n: u32) -> (r: OptimizerBuilder<T>)
        ensures
            r@ == (Plan { n: Some(n), ..self@ }),
    {
        OptimizerBuilder { n: Some(n), ..self }
    }

    /// Sets the mutation probability to `numerator / denominator`.
    pub fn mutation_rate(self, numerator: i64, denominator: u32) -> (r: OptimizerBuilder<T>)
        ensures
            r@ == (Plan { mutation_rate: Some((numerator, denominator)), ..self@ }),
    {
        OptimizerBuilder { mutation_rate: Some((numerator, denominator)), ..self }
    }

    /// Sets the scoring function.
    pub fn target(self, target: T) -> (r: OptimizerBuilder<T>)
        ensures
            r@ == (Plan { target: Some(target), ..self@ }),
    {
        OptimizerBuilder { target: Some(target), ..self }
    }

    /// Records whether a lower or a higher score is wanted.
    pub fn target_type(self, target_type: TargetType) -> (r: OptimizerBuilder<T>)
        ensures
            r@ == (Plan { target_type: Some(target_type), ..self@ }),
    {
        OptimizerBuilder { target_type: Some(target_type), ..self }
    }

    /// Records how parents are to be chosen.
    pub fn selection_method(self, selection_method: SelectionMethod) -> (r: OptimizerBuilder<T>)
        ensures
            r@ == (Plan { selection_method: Some(selection_method), ..self@ }),
    {
        OptimizerBuilder { selection_method: Some(selection_method), ..self }
    }

    /// Records how genes are to be combined.
    pub fn crossover_method(self, crossover_method: CrossoverMethod) -> (r: OptimizerBuilder<T>)
        ensures
            r@ == (Plan { crossover_method: Some(crossover_method), ..self@ }),
    {
        OptimizerBuilder { crossover_method: Some(crossover_method), ..self }
    }

    /// Sets the seed of the random generator. Without one the generator is
    /// seeded from the operating system.
    pub fn seed(self, seed: u64) -> (r: OptimizerBuilder<T>)
        ensures
            r@ == (Plan { seed: Some(seed), ..self@ }),
    {
        OptimizerBuilder { seed: Some(seed), ..self }
    }

    /// Makes the optimizer, with the default for everything that was not
    /// given. Fails with `InvalidConfiguration` where the genome length or the
    /// target is missing, the population has fewer than two members or the
    /// mutation rate is no probability. Fails with `EntropyUnavailable` where
    /// all that is in order, no seed was given and the operating system has no
    /// entropy to give; with a seed a buildable plan never fails.
    pub fn build(self) -> (r: Result<Optimizer<T>, Error>)
        ensures
            (r matches Err(e) && e == Error::InvalidConfiguration) <==> !self@.is_buildable(),
            (r matches Err(e) && e == Error::EntropyUnavailable) ==> self@.seed is None,
            r matches Ok(made) ==> made.is_fresh(
                self@.population_size() as nat,
                self@.settings(),
                self@.target->0,
            ),
    {
        let n = match self.n {
            Some(n) => n,
            None => {
                return Err(Error::InvalidConfiguration);
            },
        };
        let target = match self.target {
            Some(target) => target,
            None => {
                return Err(Error::InvalidConfiguration);
            },
        };
        let (numerator, denominator) = match self.mutation_rate {
            Some(rate) => rate,
            None => (DEFAULT_MUT_RATE_NUMERATOR, DEFAULT_MUT_RATE_DENOMINATOR),
        };
        Optimizer::new(
            match self.size {
                Some(size) => size,
                None => DEFAULT_POP_SIZE,
            },
            n,
            numerator,
            denominator,
            target,
            match self.target_type {
                Some(choice) => choice,
                None => DEFAULT_TGT_TYPE,
            },
            match self.selection_method {
                Some(choice) => choice,
                None => DEFAULT_SEL_METH,
            },
            match self.crossover_method {
                Some(choice) => choice,
                None => DEFAULT_CRS_METH,
            },
            self.seed,
        )
    }
}

} // verus!
