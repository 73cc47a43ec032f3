//! What one generation is: the population before it, the scores it was given,
//! the draws that were made, and the population that follows from them.

use crate::breeding::offspring;
use crate::genes::{bytes_for, Genome};
use crate::individual::Individual;
use crate::options::{CrossoverMethod, SelectionMethod, TargetType};
use crate::ranking::{
    is_ranking, law_ranking_is_injective, law_ranking_is_stable, law_ranking_is_unique,
    law_survivors_are_the_best, ranking, ranks_before,
};
use vstd::prelude::*;

verus! {

/// What an optimizer was configured with. A generation changes none of it.
pub struct Settings {
    /// The number of genes of each candidate.
    pub genome_bits: nat,
    /// The mutation probability is `mutation_numerator / mutation_denominator`.
    pub mutation_numerator: nat,
    pub mutation_denominator: nat,
    pub target_type: TargetType,
    pub selection_method: SelectionMethod,
    pub crossover_method: CrossoverMethod,
}

/// The draws that one child was made with.
pub struct Draw {
    /// The places of the two parents among the survivors.
    pub first: int,
    pub second: int,
    /// For each gene, whether it comes from the first parent.
    pub picks: Seq<bool>,
    /// For each gene, whether it is inverted afterwards.
    pub flips: Seq<bool>,
}

/// `numerator / denominator` is a probability: a ratio from 0 to 1.
pub open spec fn is_probability(numerator: int, denominator: int) -> bool {
    denominator > 0 && 0 <= numerator <= denominator
}

/// The number of candidates that survive a generation of `size`: half of
/// them, rounded down.
pub open spec fn survivors(size: nat) -> nat {
    size / 2
}

/// The genome of a member of a population with `n` genes: it holds exactly
/// `n` genes, in as few bytes as hold them, and the bits of the last byte
/// that stand for no gene are 0. Every index from `n` on reads 0 and takes no
/// write.
pub open spec fn has_shape(genome: Genome, n: nat) -> bool {
    &&& genome.len == n
    &&& genome.bytes.len() == bytes_for(n)
    &&& genome.wf()
    &&& genome.tail_is_clear()
}

/// The scores that the members carry, in their order.
pub open spec fn recorded_scores(members: Seq<Individual>) -> Seq<i64> {
    Seq::new(members.len(), |i: int| members[i].score)
}

/// `after` holds the members of `before` in the order that `order` gives.
pub open spec fn is_arranged(before: Seq<Individual>, order: Seq<usize>, after: Seq<Individual>) -> bool {
    &&& after.len() == before.len()
    &&& order.len() == before.len()
    &&& forall|i: int| 0 <= i < after.len() ==> #[trigger] after[i] == before[order[i] as int]
}

/// `after` holds the members of `before`, ranked by the scores they carry.
pub open spec fn is_ranked(before: Seq<Individual>, order: Seq<usize>, after: Seq<Individual>) -> bool {
    is_ranking(recorded_scores(before), order) && is_arranged(before, order, after)
}

/// `child` was bred from `first` and `second` with the draws `picks` and
/// `flips`, one of each for every gene that is recombined. Where the mutation
/// probability is 0 no gene was inverted, and where it is 1 every gene was.
pub open spec fn is_bred(
    first: Genome,
    second: Genome,
    picks: Seq<bool>,
    flips: Seq<bool>,
    child: Genome,
    settings: Settings,
) -> bool {
    &&& picks.len() == settings.genome_bits
    &&& flips.len() == settings.genome_bits
    &&& settings.mutation_numerator == 0 ==> forall|j: int|
        0 <= j < flips.len() ==> !#[trigger] flips[j]
    &&& settings.mutation_numerator == settings.mutation_denominator ==> forall|j: int|
        0 <= j < flips.len() ==> #[trigger] flips[j]
    &&& child == offspring(first, second, picks, flips, settings.genome_bits)
}

/// `child` was made with `draw` from two of the first `keep` members: two
/// different ones wherever there are two.
pub open spec fn is_child(
    members: Seq<Individual>,
    keep: int,
    draw: Draw,
    child: Genome,
    settings: Settings,
) -> bool {
    &&& 0 <= draw.first < keep
    &&& 0 <= draw.second < keep
    &&& keep >= 2 ==> draw.first != draw.second
    &&& is_bred(
        members[draw.first].genes@,
        members[draw.second].genes@,
        draw.picks,
        draw.flips,
        child,
        settings,
    )
}

/// `after` is the generation that follows `before` when the candidates score
/// `scores` and the children are made with `draws`.
///
/// `order` is the ranking of the scores. Every place of `after` carries the
/// score of the candidate that the ranking puts there. The first half of
/// `after` are the survivors: the best candidates of `before`, genes untouched.
/// Each place of the second half holds a child of two survivors.
pub open spec fn is_generation(
    before: Seq<Individual>,
    scores: Seq<i64>,
    order: Seq<usize>,
    draws: Seq<Draw>,
    after: Seq<Individual>,
    settings: Settings,
) -> bool {
    let keep = survivors(before.len()) as int;
    &&& scores.len() == before.len()
    &&& after.len() == before.len()
    &&& draws.len() == before.len()
    &&& is_ranking(scores, order)
    &&& forall|i: int|
        0 <= i < after.len() ==> (#[trigger] after[i]).score == scores[order[i] as int]
    &&& forall|i: int|
        0 <= i < keep ==> (#[trigger] after[i]).genes@ == before[order[i] as int].genes@
    &&& forall|i: int|
        keep <= i < after.len() ==> is_child(after, keep, #[trigger] draws[i], after[i].genes@, settings)
}

/// `after` follows `before` by one generation, whatever the scores and the
/// draws were.
pub open spec fn follows(before: Seq<Individual>, after: Seq<Individual>, settings: Settings) -> bool {
    exists|scores: Seq<i64>, order: Seq<usize>, draws: Seq<Draw>|
        is_generation(before, scores, order, draws, after, settings)
}

/// `history` tells of `epochs` generations in a row, from `first` to `last`.
pub open spec fn is_evolution(
    first: Seq<Individual>,
    history: Seq<Seq<Individual>>,
    last: Seq<Individual>,
    epochs: nat,
    settings: Settings,
) -> bool {
    &&& history.len() == epochs + 1
    &&& history[0] == first
    &&& history[epochs as int] == last
    &&& forall|g: int|
        0 <= g < epochs ==> follows(#[trigger] history[g], history[g + 1], settings)
}

/// Moves the members into the order that a ranking gives.
fn arrange(population: &mut Vec<Individual>, order: &Vec<usize>, Ghost(scores): Ghost<Seq<i64>>)
    requires
        scores.len() == old(population)@.len(),
        is_ranking(scores, order@),
    ensures
        is_arranged(old(population)@, order@, final(population)@),
{
    let size = population.len();
    let ghost before = population@;
    let mut arranged: Vec<Individual> = Vec::with_capacity(size);
    let mut i: usize = 0;
    while i < size
        invariant
            i <= size,
            size == population@.len(),
            size == before.len(),
            scores.len() == size,
            is_ranking(scores, order@),
            arranged@.len() == i,
            forall|j: int| 0 <= j < i ==> #[trigger] arranged@[j] == before[order@[j] as int],
            forall|j: int|
                i <= j < size ==> population@[#[trigger] order@[j] as int] == before[order@[j] as int],
        decreases size - i,
    {
        let from = order[i];
        let mut taken = Individual::new_with_genes(Vec::new());
        let ghost held = population@;
        core::mem::swap(&mut population[from], &mut taken);
        assert forall|j: int| i + 1 <= j < size implies population@[#[trigger] order@[j] as int]
            == before[order@[j] as int] by {
            law_ranking_is_injective(scores, order@, i as int, j);
            assert(held[order@[j] as int] == before[order@[j] as int]);
        }
        arranged.push(taken);
        i += 1;
    }
    *population = arranged;
}

/// Ranks the population by the scores its members carry, best first: lower
/// scores before higher ones, and members with equal scores in the order in
/// which they stood.
pub fn rank(population: &mut Vec<Individual>)
    ensures
        exists|order: Seq<usize>| is_ranked(old(population)@, order, final(population)@),
{
    let size = population.len();
    let mut scores: Vec<i64> = Vec::with_capacity(size);
    let mut i: usize = 0;
    while i < size
        invariant
            i <= size,
            size == population@.len(),
            scores@.len() == i,
            forall|j: int| 0 <= j < i ==> scores@[j] == population@[j].score,
        decreases size - i,
    {
        scores.push(population[i].score);
        i += 1;
    }
    assert(scores@ =~= recorded_scores(population@));
    let order = ranking(&scores);
    arrange(population, &order, Ghost(scores@));
    assert(is_ranked(old(population)@, order@, population@));
}

/// The scores and the draws decide the generation: two generations that start
/// from the same genomes, with the same scores and the same draws, end with
/// the same scores and genomes in every place.
pub proof fn law_generation_is_determined(
    before_a: Seq<Individual>,
    before_b: Seq<Individual>,
    scores: Seq<i64>,
    order_a: Seq<usize>,
    order_b: Seq<usize>,
    draws: Seq<Draw>,
    after_a: Seq<Individual>,
    after_b: Seq<Individual>,
    settings: Settings,
)
    requires
        before_a.len() == before_b.len(),
        forall|i: int| 0 <= i < before_a.len() ==> before_a[i].genes@ == before_b[i].genes@,
        is_generation(before_a, scores, order_a, draws, after_a, settings),
        is_generation(before_b, scores, order_b, draws, after_b, settings),
    ensures
        order_a == order_b,
        after_a.len() == after_b.len(),
        forall|i: int| 0 <= i < after_a.len() ==> after_a[i]@ == after_b[i]@,
{
    law_ranking_is_unique(scores, order_a, order_b);
    let keep = survivors(before_a.len()) as int;
    assert forall|i: int| 0 <= i < after_a.len() implies after_a[i]@ == after_b[i]@ by {
        assert(after_a[i].score == after_b[i].score);
        if i < keep {
            assert(after_a[i].genes@ == after_b[i].genes@);
        } else {
            let d = draws[i];
            assert(is_child(after_a, keep, d, after_a[i].genes@, settings));
            assert(is_child(after_b, keep, d, after_b[i].genes@, settings));
            assert(after_a[d.first].genes@ == after_b[d.first].genes@);
            assert(after_a[d.second].genes@ == after_b[d.second].genes@);
        }
    }
}

/// Selection keeps the best: a survivor carries the genes and the score of a
/// candidate that ranks before every candidate that did not survive.
pub proof fn law_selection_keeps_the_best(
    before: Seq<Individual>,
    scores: Seq<i64>,
    order: Seq<usize>,
    draws: Seq<Draw>,
    after: Seq<Individual>,
    settings: Settings,
    place: int,
    other: int,
)
    requires
        is_generation(before, scores, order, draws, after, settings),
        0 <= place < survivors(before.len()),
        0 <= other < before.len(),
        forall|i: int| 0 <= i < survivors(before.len()) ==> order[i] != other,
    ensures
        after[place].genes@ == before[order[place] as int].genes@,
        after[place].score == scores[order[place] as int],
        ranks_before(scores, order[place] as int, other),
        scores[order[place] as int] <= scores[other],
{
    law_survivors_are_the_best(scores, order, survivors(before.len()) as int, place, other);
}

/// After a generation the scores that the members carry never fall along the
/// population.
pub proof fn law_generation_is_sorted(
    before: Seq<Individual>,
    scores: Seq<i64>,
    order: Seq<usize>,
    draws: Seq<Draw>,
    after: Seq<Individual>,
    settings: Settings,
    i: int,
    j: int,
)
    requires
        is_generation(before, scores, order, draws, after, settings),
        0 <= i < j < after.len(),
    ensures
        after[i].score <= after[j].score,
{
    law_ranking_is_stable(scores, order, i, j);
}

/// A generation keeps the size of the population.
pub proof fn law_generation_keeps_size(before: Seq<Individual>, after: Seq<Individual>, settings: Settings)
    requires
        follows(before, after, settings),
    ensures
        after.len() == before.len(),
{
}

/// Any number of generations keeps the size of the population.
pub proof fn law_evolution_keeps_size(
    first: Seq<Individual>,
    history: Seq<Seq<Individual>>,
    last: Seq<Individual>,
    epochs: nat,
    settings: Settings,
)
    requires
        is_evolution(first, history, last, epochs, settings),
    ensures
        last.len() == first.len(),
    decreases epochs,
{
    if epochs > 0 {
        let shorter = history.subrange(0, epochs as int);
        let before = history[epochs - 1];
        assert forall|g: int| 0 <= g < epochs - 1 implies follows(
            #[trigger] shorter[g],
            shorter[g + 1],
            settings,
        ) by {
            assert(follows(history[g], history[g + 1], settings));
        }
        law_evolution_keeps_size(first, shorter, before, (epochs - 1) as nat, settings);
        assert(follows(history[epochs - 1], history[epochs - 1 + 1], settings));
    }
}

} // verus!
