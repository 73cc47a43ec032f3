//! One candidate solution: a genome and the score it last received.

use crate::genes::{Genes, Genome};
use vstd::prelude::*;

verus! {

/// The mathematical content of a candidate.
pub struct Candidate {
    pub score: int,
    pub genome: Genome,
}

/// A genome together with its cached score. The score is whatever the last
/// evaluation stored; it says nothing of genes written since.
pub struct Individual {
    pub score: i64,
    pub genes: Genes,
}

impl View for Individual {
    type V = Candidate;

    open spec fn view(&self) -> Candidate {
        Candidate { score: self.score as int, genome: self.genes@ }
    }
}

impl Individual {
    /// Creates a candidate with `n` genes, all 0, and score 0.
    pub fn new(n: u32) -> (r: Individual)
        ensures
            r@ == (Candidate { score: 0, genome: Genome::zeroed(n as nat) }),
    {
        Individual { score: 0, genes: Genes::new(n) }
    }

    /// Creates a candidate whose genes are the bits of `genes`, with score 0.
    pub fn new_with_genes(genes: Vec<u8>) -> (r: Individual)
        ensures
            r@ == (Candidate { score: 0, genome: Genome::of_bytes(genes@) }),
    {
        Individual { score: 0, genes: Genes::new_with_genes(genes) }
    }

    /// The candidate's genes.
    pub fn genes(&self) -> (r: &Genes)
        ensures
            *r == self.genes,
    {
        &self.genes
    }

    /// The candidate's genes, for writing. The score stays as it is.
    pub fn genes_mut(&mut self) -> (r: &mut Genes)
        ensures
            *r == old(self).genes,
            *final(self) == (Individual { score: old(self).score, genes: *final(r) }),
    {
        &mut self.genes
    }
}

} // verus!
