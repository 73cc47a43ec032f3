use genes::generation::rank;
use genes::individual::Individual;
use genes::ranking::{ranking, top_ranked};

fn member(score: i64, tag: u8) -> Individual {
    let mut individual = Individual::new_with_genes(vec![tag]);
    individual.score = score;
    individual
}

#[test]
fn ranking_orders_by_score() {
    assert_eq!(ranking(&vec![30, 10, 20]), vec![1, 2, 0]);
    assert_eq!(ranking(&vec![5, 4, 3, 2, 1]), vec![4, 3, 2, 1, 0]);
    assert_eq!(ranking(&vec![1, 2, 3, 4, 5]), vec![0, 1, 2, 3, 4]);
    assert_eq!(ranking(&vec![-1, i64::MIN, i64::MAX, 0]), vec![1, 0, 3, 2]);
}

#[test]
fn ranking_keeps_ties_in_order() {
    assert_eq!(ranking(&vec![7, 7, 7, 7]), vec![0, 1, 2, 3]);
    assert_eq!(ranking(&vec![2, 1, 2, 1, 2, 1]), vec![1, 3, 5, 0, 2, 4]);
    assert_eq!(ranking(&vec![0, 3, 0, 3, 1, 0]), vec![0, 2, 5, 4, 1, 3]);
}

#[test]
fn ranking_of_few() {
    assert_eq!(ranking(&Vec::new()), Vec::<usize>::new());
    assert_eq!(ranking(&vec![9]), vec![0]);
    assert_eq!(ranking(&vec![9, 8]), vec![1, 0]);
    assert_eq!(ranking(&vec![8, 9]), vec![0, 1]);
    assert_eq!(ranking(&vec![8, 8]), vec![0, 1]);
}

#[test]
fn ranking_agrees_with_a_stable_sort() {
    let mut state: u64 = 0x2545_F491_4F6C_DD1D;
    for len in [3usize, 10, 17, 64, 100, 257] {
        let mut scores: Vec<i64> = Vec::new();
        for _ in 0..len {
            state ^= state << 13;
            state ^= state >> 7;
            state ^= state << 17;
            scores.push((state % 16) as i64 - 8);
        }
        let mut expected: Vec<usize> = (0..len).collect();
        expected.sort_by_key(|&i| scores[i]);
        assert_eq!(ranking(&scores), expected);
    }
}

#[test]
fn top_ranked_is_the_first_lowest() {
    assert_eq!(top_ranked(&Vec::new()), None);
    assert_eq!(top_ranked(&vec![4]), Some(0));
    assert_eq!(top_ranked(&vec![4, 2, 9, 2]), Some(1));
    assert_eq!(top_ranked(&vec![0, 0, 0]), Some(0));
    assert_eq!(top_ranked(&vec![3, 2, 1]), Some(2));
    assert_eq!(top_ranked(&vec![i64::MAX, i64::MIN]), Some(1));
}

#[test]
fn top_ranked_heads_the_ranking() {
    let scores = vec![5, 3, 8, 3, 1, 1, 9];
    assert_eq!(top_ranked(&scores), Some(ranking(&scores)[0]));
    assert_eq!(top_ranked(&scores), Some(4));
}

#[test]
fn rank_moves_members_with_their_scores_and_genes() {
    let mut population = vec![member(30, 0xA), member(10, 0xB), member(20, 0xC), member(10, 0xD)];
    rank(&mut population);
    let scores: Vec<i64> = population.iter().map(|m| m.score).collect();
    let tags: Vec<u8> = population.iter().map(|m| m.genes.g8(0)).collect();
    assert_eq!(scores, vec![10, 10, 20, 30]);
    assert_eq!(tags, vec![0xB, 0xD, 0xC, 0xA]);
}

#[test]
fn rank_of_nothing_and_of_one() {
    let mut none: Vec<Individual> = Vec::new();
    rank(&mut none);
    assert_eq!(none.len(), 0);
    let mut one = vec![member(3, 7)];
    rank(&mut one);
    assert_eq!(one.len(), 1);
    assert_eq!(one[0].score, 3);
    assert_eq!(one[0].genes.g8(0), 7);
}
