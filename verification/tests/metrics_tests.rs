use perplex::metrics::{calculate_token_metrics, Candidate};

fn cand(id: i32, score: u32, prob: f32) -> Candidate {
    Candidate { id, score, probability_bits: prob.to_bits() }
}

#[test]
fn rank_and_probability_of_actual_token() {
    let mut cands = vec![
        cand(7, 10, 0.1),
        cand(3, 30, 0.6),
        cand(5, 20, 0.3),
    ];
    let (rank, prob_bits, top) = calculate_token_metrics(&mut cands, Some(5));
    assert_eq!(rank, 2);
    assert_eq!(prob_bits, (0.3f32).to_bits());
    // The candidates were sorted descending by score, stably.
    assert_eq!(
        cands.iter().map(|c| c.id).collect::<Vec<_>>(),
        vec![3, 5, 7]
    );
    // Top predictions cover all three candidates, best first.
    assert_eq!(
        top,
        vec![
            (3, (0.6f32).to_bits()),
            (5, (0.3f32).to_bits()),
            (7, (0.1f32).to_bits()),
        ]
    );
}

#[test]
fn missing_actual_token_degrades_to_no_information() {
    let mut cands = vec![cand(1, 50, 0.7), cand(2, 40, 0.3)];
    let (rank, prob_bits, top) = calculate_token_metrics(&mut cands, Some(99));
    assert_eq!(rank, 1);
    assert_eq!(prob_bits, (0.0f32).to_bits());
    // Top predictions are still reported.
    assert_eq!(top.len(), 2);
    assert_eq!(top[0].0, 1);
}

#[test]
fn empty_candidate_set_degrades_to_no_information() {
    let mut cands: Vec<Candidate> = vec![];
    let (rank, prob_bits, top) = calculate_token_metrics(&mut cands, Some(4));
    assert_eq!((rank, prob_bits), (1, 0));
    assert!(top.is_empty());
}

#[test]
fn no_actual_token_reports_rank_one() {
    let mut cands = vec![cand(1, 50, 0.7), cand(2, 40, 0.3)];
    let (rank, prob_bits, top) = calculate_token_metrics(&mut cands, None);
    assert_eq!((rank, prob_bits), (1, 0));
    assert_eq!(top.len(), 2);
}

#[test]
fn rank_is_monotone_in_score() {
    let base = vec![
        cand(10, 5, 0.05),
        cand(11, 25, 0.40),
        cand(12, 15, 0.20),
        cand(13, 35, 0.30),
        cand(14, 1, 0.05),
    ];
    // A strictly larger raw score always gives a strictly smaller rank.
    let mut by_score: Vec<(u32, usize)> = Vec::new();
    for c in &base {
        let mut cands = base.clone();
        let (rank, _, _) = calculate_token_metrics(&mut cands, Some(c.id));
        by_score.push((c.score, rank));
    }
    for a in &by_score {
        for b in &by_score {
            if a.0 > b.0 {
                assert!(a.1 < b.1, "score {} rank {} vs score {} rank {}", a.0, a.1, b.0, b.1);
            }
        }
    }
}

#[test]
fn equal_scores_keep_original_order() {
    let mut cands = vec![
        cand(1, 20, 0.25),
        cand(2, 30, 0.30),
        cand(3, 20, 0.25),
        cand(4, 10, 0.20),
    ];
    let (rank_first, _, top) = calculate_token_metrics(&mut cands, Some(1));
    // Ties are broken by original position: id 1 stays ahead of id 3.
    assert_eq!(rank_first, 2);
    assert_eq!(
        top.iter().map(|p| p.0).collect::<Vec<_>>(),
        vec![2, 1, 3, 4]
    );

    let mut cands2 = vec![
        cand(1, 20, 0.25),
        cand(2, 30, 0.30),
        cand(3, 20, 0.25),
        cand(4, 10, 0.20),
    ];
    let (rank_second, _, _) = calculate_token_metrics(&mut cands2, Some(3));
    assert_eq!(rank_second, 3);
}

#[test]
fn top_predictions_are_capped_at_five() {
    let mut cands: Vec<Candidate> = (0..8).map(|i| cand(i, 80 - i as u32, 0.125)).collect();
    let (_, _, top) = calculate_token_metrics(&mut cands, Some(0));
    assert_eq!(top.len(), 5);
    assert_eq!(
        top.iter().map(|p| p.0).collect::<Vec<_>>(),
        vec![0, 1, 2, 3, 4]
    );
}
