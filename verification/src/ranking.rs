//! Ranking candidates by fitness.
//!
//! Candidates are known here by their position in the population and by the
//! score at that position. A lower score is better, and of two candidates with
//! the same score the one that stood first stays first.

use vstd::prelude::*;

verus! {

/// Candidate `a` ranks strictly before candidate `b`: its score is lower, or
/// the scores are equal and `a` stood before `b`.
pub open spec fn ranks_before(scores: Seq<i64>, a: int, b: int) -> bool {
    scores[a] < scores[b] || (scores[a] == scores[b] && a < b)
}

/// `run` lists positions from `lo` up to but excluding `hi`, each ranking
/// strictly before all that follow it.
pub open spec fn is_ranked_run(scores: Seq<i64>, run: Seq<usize>, lo: int, hi: int) -> bool {
    &&& forall|i: int| 0 <= i < run.len() ==> lo <= #[trigger] run[i] < hi
    &&& forall|i: int, j: int|
        0 <= i < j < run.len() ==> ranks_before(scores, #[trigger] run[i] as int, #[trigger] run[j] as int)
}

/// `order` is the ranking of `scores`: it has one entry for each score, every
/// entry is a position of `scores`, and each entry ranks strictly before all
/// that follow it. `order[0]` is the best candidate's position.
pub open spec fn is_ranking(scores: Seq<i64>, order: Seq<usize>) -> bool {
    order.len() == scores.len() && is_ranked_run(scores, order, 0, scores.len() as int)
}

/// Position `k` ranks before every other position of `scores`.
pub open spec fn is_top(scores: Seq<i64>, k: int) -> bool {
    &&& 0 <= k < scores.len()
    &&& forall|j: int| 0 <= j < scores.len() && j != k ==> ranks_before(scores, k, j)
}

/// Merges two ranked runs over adjoining ranges of positions into one.
fn merge(
    scores: &Vec<i64>,
    left: &Vec<usize>,
    right: &Vec<usize>,
    Ghost(lo): Ghost<int>,
    Ghost(mid): Ghost<int>,
    Ghost(hi): Ghost<int>,
) -> (run: Vec<usize>)
    requires
        0 <= lo <= mid <= hi <= scores@.len(),
        is_ranked_run(scores@, left@, lo, mid),
        is_ranked_run(scores@, right@, mid, hi),
    ensures
        run@.len() == left@.len() + right@.len(),
        is_ranked_run(scores@, run@, lo, hi),
{
    let mut run: Vec<usize> = Vec::new();
    let mut i: usize = 0;
    let mut j: usize = 0;
    while i < left.len() || j < right.len()
        invariant
            0 <= lo <= mid <= hi <= scores@.len(),
            is_ranked_run(scores@, left@, lo, mid),
            is_ranked_run(scores@, right@, mid, hi),
            i <= left@.len(),
            j <= right@.len(),
            run@.len() == i + j,
            is_ranked_run(scores@, run@, lo, hi),
            forall|k: int, a: int|
                0 <= k < run@.len() && i <= a < left@.len() ==> ranks_before(
                    scores@,
                    #[trigger] run@[k] as int,
                    #[trigger] left@[a] as int,
                ),
            forall|k: int, b: int|
                0 <= k < run@.len() && j <= b < right@.len() ==> ranks_before(
                    scores@,
                    #[trigger] run@[k] as int,
                    #[trigger] right@[b] as int,
                ),
        decreases left@.len() - i + right@.len() - j,
    {
        let from_left = if i == left.len() {
            false
        } else if j == right.len() {
            true
        } else {
            scores[left[i]] <= scores[right[j]]
        };
        let ghost before = run@;
        if from_left {
            let pick = left[i];
            assert forall|b: int| j <= b < right@.len() implies ranks_before(
                scores@,
                pick as int,
                #[trigger] right@[b] as int,
            ) by {
                if b > j {
                    assert(ranks_before(scores@, right@[j as int] as int, right@[b] as int));
                }
            }
            assert forall|a: int| i < a < left@.len() implies ranks_before(
                scores@,
                pick as int,
                #[trigger] left@[a] as int,
            ) by {
                assert(ranks_before(scores@, left@[i as int] as int, left@[a] as int));
            }
            run.push(pick);
            i += 1;
        } else {
            let pick = right[j];
            assert forall|a: int| i <= a < left@.len() implies ranks_before(
                scores@,
                pick as int,
                #[trigger] left@[a] as int,
            ) by {
                if a > i {
                    assert(ranks_before(scores@, left@[i as int] as int, left@[a] as int));
                }
            }
            assert forall|b: int| j < b < right@.len() implies ranks_before(
                scores@,
                pick as int,
                #[trigger] right@[b] as int,
            ) by {
                assert(ranks_before(scores@, right@[j as int] as int, right@[b] as int));
            }
            run.push(pick);
            j += 1;
        }
        assert(forall|k: int| 0 <= k < before.len() ==> run@[k] == before[k]);
    }
    run
}

/// Ranks the positions from `lo` up to but excluding `hi`.
fn rank_range(scores: &Vec<i64>, lo: usize, hi: usize) -> (run: Vec<usize>)
    requires
        lo <= hi <= scores@.len(),
    ensures
        run@.len() == hi - lo,
        is_ranked_run(scores@, run@, lo as int, hi as int),
    decreases hi - lo,
{
    if hi - lo == 0 {
        Vec::new()
    } else if hi - lo == 1 {
        let mut run: Vec<usize> = Vec::new();
        run.push(lo);
        run
    } else {
        let mid = lo + (hi - lo) / 2;
        let left = rank_range(scores, lo, mid);
        let right = rank_range(scores, mid, hi);
        merge(scores, &left, &right, Ghost(lo as int), Ghost(mid as int), Ghost(hi as int))
    }
}

/// Ranks the candidates by score, best first: the result lists every position
/// of `scores` once, lower scores before higher ones and equal scores in the
/// order in which they stood.
pub fn ranking(scores: &Vec<i64>) -> (order: Vec<usize>)
    ensures
        is_ranking(scores@, order@),
{
    rank_range(scores, 0, scores.len())
}

/// Finds the best candidate: the first position that holds the lowest score.
/// There is none only where there are no candidates.
pub fn top_ranked(scores: &Vec<i64>) -> (r: Option<usize>)
    ensures
        match r {
            Some(k) => is_top(scores@, k as int),
            None => scores@.len() == 0,
        },
{
    if scores.len() == 0 {
        return None;
    }
    let mut best: usize = 0;
    let mut j: usize = 1;
    while j < scores.len()
        invariant
            0 <= best < j <= scores@.len(),
            forall|a: int| 0 <= a < j && a != best ==> ranks_before(scores@, best as int, a),
        decreases scores@.len() - j,
    {
        let ghost held = best as int;
        if scores[j] < scores[best] {
            best = j;
        }
        assert forall|a: int| 0 <= a < j + 1 && a != best implies ranks_before(
            scores@,
            best as int,
            a,
        ) by {
            if a != held && a != j {
                assert(ranks_before(scores@, held, a));
            }
        }
        j += 1;
    }
    Some(best)
}

/// Ranking before is a strict total order on the positions of `scores`: no
/// position ranks before itself, of two different positions exactly one ranks
/// before the other, and the relation is transitive.
pub proof fn law_ranks_before_is_strict_total(scores: Seq<i64>, a: int, b: int, c: int)
    ensures
        !ranks_before(scores, a, a),
        a != b ==> (ranks_before(scores, a, b) <==> !ranks_before(scores, b, a)),
        ranks_before(scores, a, b) && ranks_before(scores, b, c) ==> ranks_before(scores, a, c),
{
}

/// A ranking names no position twice.
pub proof fn law_ranking_is_injective(scores: Seq<i64>, order: Seq<usize>, i: int, j: int)
    requires
        is_ranking(scores, order),
        0 <= i < order.len(),
        0 <= j < order.len(),
        i != j,
    ensures
        order[i] != order[j],
{
    if i < j {
        assert(ranks_before(scores, order[i] as int, order[j] as int));
    } else {
        assert(ranks_before(scores, order[j] as int, order[i] as int));
    }
}

/// A ranking names every position: position `k` stands at some place in it.
pub proof fn law_ranking_covers(scores: Seq<i64>, order: Seq<usize>, k: int) -> (place: int)
    requires
        is_ranking(scores, order),
        0 <= k < scores.len(),
    ensures
        0 <= place < order.len(),
        order[place] == k,
{
    let n = scores.len() as int;
    let positions = Seq::new(order.len(), |i: int| order[i] as int);
    assert forall|i: int, j: int|
        0 <= i < positions.len() && 0 <= j < positions.len() && i != j implies positions[i]
        != positions[j] by {
        law_ranking_is_injective(scores, order, i, j);
    }
    positions.unique_seq_to_set();
    vstd::set_lib::lemma_int_range(0, n);
    let named = positions.to_set();
    let all = vstd::set_lib::set_int_range(0, n);
    assert forall|x: int| named.contains(x) implies all.contains(x) by {
        let i = choose|i: int| 0 <= i < positions.len() && positions[i] == x;
        assert(0 <= order[i] < n);
    }
    vstd::seq_lib::seq_to_set_is_finite(positions);
    vstd::set_lib::lemma_subset_equality(named, all);
    assert(all.contains(k));
    assert(named.contains(k));
    let place = choose|i: int| 0 <= i < positions.len() && positions[i] == k;
    place
}

/// The first `upto` places of two rankings of the same scores agree.
proof fn lemma_rankings_agree_upto(scores: Seq<i64>, a: Seq<usize>, b: Seq<usize>, upto: int)
    requires
        is_ranking(scores, a),
        is_ranking(scores, b),
        0 <= upto <= scores.len(),
    ensures
        forall|k: int| 0 <= k < upto ==> a[k] == b[k],
    decreases upto,
{
    if upto > 0 {
        lemma_rankings_agree_upto(scores, a, b, upto - 1);
        let i = upto - 1;
        if a[i] != b[i] {
            let in_b = law_ranking_covers(scores, b, a[i] as int);
            let in_a = law_ranking_covers(scores, a, b[i] as int);
            if in_b < i {
                law_ranking_is_injective(scores, a, in_b, i);
            }
            if in_a < i {
                law_ranking_is_injective(scores, b, in_a, i);
            }
            assert(ranks_before(scores, b[i] as int, b[in_b] as int));
            assert(ranks_before(scores, a[i] as int, a[in_a] as int));
        }
    }
}

/// The scores decide the ranking: two rankings of the same scores are equal.
pub proof fn law_ranking_is_unique(scores: Seq<i64>, a: Seq<usize>, b: Seq<usize>)
    requires
        is_ranking(scores, a),
        is_ranking(scores, b),
    ensures
        a == b,
{
    lemma_rankings_agree_upto(scores, a, b, scores.len() as int);
    assert(a =~= b);
}

/// The scores along a ranking never fall, and candidates with equal scores
/// keep the order in which they stood.
pub proof fn law_ranking_is_stable(scores: Seq<i64>, order: Seq<usize>, i: int, j: int)
    requires
        is_ranking(scores, order),
        0 <= i < j < order.len(),
    ensures
        scores[order[i] as int] <= scores[order[j] as int],
        scores[order[i] as int] == scores[order[j] as int] ==> order[i] < order[j],
{
    assert(ranks_before(scores, order[i] as int, order[j] as int));
}

/// The first `keep` places of a ranking hold exactly the `keep` best
/// candidates: a candidate that stands there ranks before every candidate that
/// does not.
pub proof fn law_survivors_are_the_best(
    scores: Seq<i64>,
    order: Seq<usize>,
    keep: int,
    place: int,
    other: int,
)
    requires
        is_ranking(scores, order),
        0 <= place < keep <= order.len(),
        0 <= other < scores.len(),
        forall|i: int| 0 <= i < keep ==> order[i] != other,
    ensures
        ranks_before(scores, order[place] as int, other),
        scores[order[place] as int] <= scores[other],
{
    let at = law_ranking_covers(scores, order, other);
    assert(ranks_before(scores, order[place] as int, order[at] as int));
}

/// A ranking of at least one candidate starts with the best candidate.
pub proof fn law_ranking_starts_with_top(scores: Seq<i64>, order: Seq<usize>)
    requires
        is_ranking(scores, order),
        scores.len() > 0,
    ensures
        is_top(scores, order[0] as int),
{
    assert forall|j: int| 0 <= j < scores.len() && j != order[0] implies ranks_before(
        scores,
        order[0] as int,
        j,
    ) by {
        let at = law_ranking_covers(scores, order, j);
        assert(ranks_before(scores, order[0] as int, order[at] as int));
    }
}

/// The best candidate is unique.
pub proof fn law_top_is_unique(scores: Seq<i64>, a: int, b: int)
    requires
        is_top(scores, a),
        is_top(scores, b),
    ensures
        a == b,
{
    if a != b {
        assert(ranks_before(scores, a, b));
        assert(ranks_before(scores, b, a));
    }
}

} // verus!
