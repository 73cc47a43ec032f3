//! Recombination: how a child genome follows from two parents and the draws
//! that were made for it.
//!
//! A child starts as a copy of its first parent. Each of its first `n` genes
//! is then taken from the parent that a coin names, and afterwards each of
//! those genes is inverted where a second draw says so.

use crate::genes::{law_write_keeps_tail, law_write_then_read, lemma_bit_is_binary, Genes, Genome};
use vstd::prelude::*;

verus! {

/// The value that a child takes for gene `i`: the first parent's where
/// `from_first` holds, else the second parent's.
pub open spec fn inherited(first: Genome, second: Genome, from_first: bool, i: int) -> u8 {
    if from_first {
        first.bit(i)
    } else {
        second.bit(i)
    }
}

/// The first parent with each of its genes below `n` replaced by the gene that
/// `picks` names.
pub open spec fn crossed(first: Genome, second: Genome, picks: Seq<bool>, n: nat) -> Genome
    decreases n,
{
    if n == 0 {
        first
    } else {
        crossed(first, second, picks, (n - 1) as nat).with_bit(
            n - 1,
            inherited(first, second, picks[n - 1], n - 1),
        )
    }
}

/// `genome` with each gene below `n` inverted where `flips` says so.
pub open spec fn mutated(genome: Genome, flips: Seq<bool>, n: nat) -> Genome
    decreases n,
{
    if n == 0 {
        genome
    } else {
        let before = mutated(genome, flips, (n - 1) as nat);
        if flips[n - 1] {
            before.flipped(n - 1)
        } else {
            before
        }
    }
}

/// The child of `first` and `second` over `n` genes: crossed as `picks` says,
/// then mutated as `flips` says.
pub open spec fn offspring(
    first: Genome,
    second: Genome,
    picks: Seq<bool>,
    flips: Seq<bool>,
    n: nat,
) -> Genome {
    mutated(crossed(first, second, picks, n), flips, n)
}

/// The mate that a draw stands for when `first` may not be drawn again: draws
/// below `first` stand for themselves, the others for the next position.
pub open spec fn mate_for(first: int, draw: int) -> int {
    if draw >= first {
        draw + 1
    } else {
        draw
    }
}

/// Gives gene `idx` of `child` the value that the named parent has there.
pub fn cross_gene(child: &mut Genes, first: &Genes, second: &Genes, idx: u32, from_first: bool)
    ensures
        final(child)@ == old(child)@.with_bit(
            idx as int,
            inherited(first@, second@, from_first, idx as int),
        ),
{
    proof {
        lemma_bit_is_binary(first@, idx as int);
        lemma_bit_is_binary(second@, idx as int);
    }
    if from_first {
        if first.get(idx) == 1 {
            child.set(idx);
        } else {
            child.clear(idx);
        }
    } else {
        if second.get(idx) == 1 {
            child.set(idx);
        } else {
            child.clear(idx);
        }
    }
}

/// Inverts gene `idx` of `child` where `flip` holds, and leaves it otherwise.
pub fn mutate_gene(child: &mut Genes, idx: u32, flip: bool)
    ensures
        final(child)@ == if flip {
            old(child)@.flipped(idx as int)
        } else {
            old(child)@
        },
{
    if flip {
        child.flip(idx);
    }
}

/// Turns a draw from one fewer than the number of survivors into a mate other
/// than `first`. The mate has to fit the machine's word.
pub fn choose_mate(first: usize, draw: usize) -> (mate: usize)
    requires
        draw < usize::MAX,
    ensures
        mate == mate_for(first as int, draw as int),
        mate != first,
{
    if draw >= first {
        draw + 1
    } else {
        draw
    }
}

/// Crossing and mutating keep the size of the first parent.
pub proof fn law_offspring_keeps_size(
    first: Genome,
    second: Genome,
    picks: Seq<bool>,
    flips: Seq<bool>,
    n: nat,
)
    ensures
        crossed(first, second, picks, n).len == first.len,
        crossed(first, second, picks, n).bytes.len() == first.bytes.len(),
        mutated(first, flips, n).len == first.len,
        mutated(first, flips, n).bytes.len() == first.bytes.len(),
        offspring(first, second, picks, flips, n).len == first.len,
        offspring(first, second, picks, flips, n).bytes.len() == first.bytes.len(),
    decreases n,
{
    if n > 0 {
        law_offspring_keeps_size(first, second, picks, flips, (n - 1) as nat);
    }
    lemma_mutated_keeps_size(first, flips, n);
    lemma_mutated_keeps_size(crossed(first, second, picks, n), flips, n);
}

/// Crossing and mutating leave the bits past the first parent's genes as they
/// were: where they were 0, they are 0 in the child.
pub proof fn law_offspring_keeps_tail(
    first: Genome,
    second: Genome,
    picks: Seq<bool>,
    flips: Seq<bool>,
    n: nat,
)
    requires
        first.tail_is_clear(),
    ensures
        crossed(first, second, picks, n).tail_is_clear(),
        offspring(first, second, picks, flips, n).tail_is_clear(),
{
    lemma_crossed_keeps_tail(first, second, picks, n);
    lemma_mutated_keeps_tail(crossed(first, second, picks, n), flips, n);
}

/// Crossing leaves the bits past the genes as they were.
proof fn lemma_crossed_keeps_tail(first: Genome, second: Genome, picks: Seq<bool>, n: nat)
    requires
        first.tail_is_clear(),
    ensures
        crossed(first, second, picks, n).tail_is_clear(),
    decreases n,
{
    if n > 0 {
        lemma_crossed_keeps_tail(first, second, picks, (n - 1) as nat);
        law_write_keeps_tail(
            crossed(first, second, picks, (n - 1) as nat),
            n - 1,
            inherited(first, second, picks[n - 1], n - 1),
        );
    }
}

/// Mutating leaves the bits past the genes as they were.
proof fn lemma_mutated_keeps_tail(genome: Genome, flips: Seq<bool>, n: nat)
    requires
        genome.tail_is_clear(),
    ensures
        mutated(genome, flips, n).tail_is_clear(),
    decreases n,
{
    if n > 0 {
        lemma_mutated_keeps_tail(genome, flips, (n - 1) as nat);
        law_write_keeps_tail(mutated(genome, flips, (n - 1) as nat), n - 1, 0);
    }
}

/// Mutating keeps the size of the genome.
proof fn lemma_mutated_keeps_size(genome: Genome, flips: Seq<bool>, n: nat)
    ensures
        mutated(genome, flips, n).len == genome.len,
        mutated(genome, flips, n).bytes.len() == genome.bytes.len(),
    decreases n,
{
    if n > 0 {
        lemma_mutated_keeps_size(genome, flips, (n - 1) as nat);
    }
}

/// After crossing, each gene below `n` that the first parent holds is the gene
/// of the parent that `picks` names; every other gene is the first parent's.
pub proof fn law_crossed_gene(first: Genome, second: Genome, picks: Seq<bool>, n: nat, i: int)
    ensures
        crossed(first, second, picks, n).holds(i) == first.holds(i),
        crossed(first, second, picks, n).bit(i) == if 0 <= i < n && first.holds(i) {
            inherited(first, second, picks[i], i)
        } else {
            first.bit(i)
        },
    decreases n,
{
    if n > 0 {
        let m = (n - 1) as nat;
        let before = crossed(first, second, picks, m);
        law_crossed_gene(first, second, picks, m, i);
        law_crossed_gene(first, second, picks, m, n - 1);
        let value = inherited(first, second, picks[n - 1], n - 1);
        lemma_bit_is_binary(first, n - 1);
        lemma_bit_is_binary(second, n - 1);
        law_write_then_read(before, n - 1, value, i);
    }
}

/// After mutating, each gene below `n` that the genome holds is inverted where
/// `flips` says so; every other gene is as it was.
pub proof fn law_mutated_gene(genome: Genome, flips: Seq<bool>, n: nat, i: int)
    ensures
        mutated(genome, flips, n).holds(i) == genome.holds(i),
        mutated(genome, flips, n).bit(i) == if 0 <= i < n && genome.holds(i) && flips[i] {
            (1 - genome.bit(i)) as u8
        } else {
            genome.bit(i)
        },
    decreases n,
{
    if n > 0 {
        let m = (n - 1) as nat;
        let before = mutated(genome, flips, m);
        law_mutated_gene(genome, flips, m, i);
        law_mutated_gene(genome, flips, m, n - 1);
        if flips[n - 1] {
            let value: u8 = if before.bit(n - 1) == 0 {
                1
            } else {
                0
            };
            lemma_bit_is_binary(before, n - 1);
            law_write_then_read(before, n - 1, value, i);
        }
    }
}

/// What a child's genes are: below `n`, where the first parent holds the gene,
/// the gene of the parent that `picks` names, inverted where `flips` says so;
/// elsewhere the first parent's gene.
pub proof fn law_offspring_gene(
    first: Genome,
    second: Genome,
    picks: Seq<bool>,
    flips: Seq<bool>,
    n: nat,
    i: int,
)
    ensures
        offspring(first, second, picks, flips, n).holds(i) == first.holds(i),
        offspring(first, second, picks, flips, n).bit(i) == if 0 <= i < n && first.holds(i) {
            if flips[i] {
                (1 - inherited(first, second, picks[i], i)) as u8
            } else {
                inherited(first, second, picks[i], i)
            }
        } else {
            first.bit(i)
        },
{
    law_crossed_gene(first, second, picks, n, i);
    law_mutated_gene(crossed(first, second, picks, n), flips, n, i);
}

/// A mate chosen from a draw below `keep - 1` is a survivor other than the
/// first parent.
pub proof fn law_mate_is_another_survivor(first: int, draw: int, keep: int)
    requires
        0 <= first < keep,
        0 <= draw < keep - 1,
    ensures
        0 <= mate_for(first, draw) < keep,
        mate_for(first, draw) != first,
{
}

/// Crossing over `n` genes reads only the first `n` picks.
pub proof fn lemma_crossed_reads_prefix(
    first: Genome,
    second: Genome,
    a: Seq<bool>,
    b: Seq<bool>,
    n: nat,
)
    requires
        forall|i: int| 0 <= i < n ==> a[i] == b[i],
    ensures
        crossed(first, second, a, n) == crossed(first, second, b, n),
    decreases n,
{
    if n > 0 {
        lemma_crossed_reads_prefix(first, second, a, b, (n - 1) as nat);
    }
}

/// Mutating over `n` genes reads only the first `n` flips.
pub proof fn lemma_mutated_reads_prefix(genome: Genome, a: Seq<bool>, b: Seq<bool>, n: nat)
    requires
        forall|i: int| 0 <= i < n ==> a[i] == b[i],
    ensures
        mutated(genome, a, n) == mutated(genome, b, n),
    decreases n,
{
    if n > 0 {
        lemma_mutated_reads_prefix(genome, a, b, (n - 1) as nat);
    }
}

} // verus!
