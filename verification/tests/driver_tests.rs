use perplex::driver::{assemble_result, context_capacity, DecodeDriver, PositionRecord};
use perplex::metrics::Candidate;

/// Test double for the inference engine: a deterministic candidate set per
/// absolute position, independent of how positions are chunked.
fn fake_candidates(pos: usize) -> Vec<Candidate> {
    (0..6i32)
        .map(|id| Candidate {
            id,
            score: ((pos as u32) * 7 + (id as u32) * 13) % 50,
            probability_bits: (((pos as u32) << 8) | id as u32),
        })
        .collect()
}

fn run_driver(tokens: Vec<i32>, batch_size: usize) -> Vec<PositionRecord> {
    let mut driver = DecodeDriver::new(tokens, batch_size);
    while let Some(chunk) = driver.next_chunk() {
        let cands: Vec<Vec<Candidate>> =
            chunk.iter().map(|&(_token, pos)| fake_candidates(pos)).collect();
        driver.push_chunk(cands);
    }
    driver.into_records()
}

#[test]
fn batch_capacity_does_not_change_results() {
    let tokens: Vec<i32> = vec![3, 1, 4, 1, 5, 9, 2, 6, 5, 3, 5];
    let with_large_batch = run_driver(tokens.clone(), 512);
    let with_unit_batch = run_driver(tokens, 1);
    assert_eq!(with_large_batch.len(), with_unit_batch.len());
    for (a, b) in with_large_batch.iter().zip(with_unit_batch.iter()) {
        assert_eq!(a.rank, b.rank);
        assert_eq!(a.probability_bits, b.probability_bits);
        assert_eq!(a.top, b.top);
    }
}

#[test]
fn chunks_are_contiguous_and_capacity_bounded() {
    let tokens: Vec<i32> = vec![10, 11, 12, 13, 14];
    let mut driver = DecodeDriver::new(tokens, 2);
    assert_eq!(driver.total(), 5);
    let mut seen: Vec<(usize, usize)> = Vec::new();
    let mut positions: Vec<usize> = Vec::new();
    while let Some(chunk) = driver.next_chunk() {
        assert!(chunk.len() <= 2 && !chunk.is_empty());
        seen.push(driver.progress());
        for &(token, pos) in &chunk {
            assert_eq!(token, 10 + pos as i32);
            positions.push(pos);
        }
        let cands: Vec<Vec<Candidate>> =
            chunk.iter().map(|&(_token, pos)| fake_candidates(pos)).collect();
        driver.push_chunk(cands);
    }
    // Progress was reported before each chunk, moving forward.
    assert_eq!(seen, vec![(0, 5), (2, 5), (4, 5)]);
    // Absolute positions: increasing, gapless, no reuse.
    assert_eq!(positions, vec![0, 1, 2, 3, 4]);
    assert!(driver.is_done());
}

#[test]
fn empty_token_sequence_is_done_immediately() {
    let driver = DecodeDriver::new(vec![], 512);
    assert!(driver.is_done());
    assert!(driver.next_chunk().is_none());
    assert!(driver.into_records().is_empty());
}

#[test]
fn last_position_has_no_prediction() {
    let records = run_driver(vec![7, 8], 512);
    assert_eq!(records.len(), 2);
    // Position 1 is the final one: nothing follows it.
    assert_eq!(records[1].rank, 1);
    assert_eq!(records[1].probability_bits, 0);
    assert!(records[1].top.is_empty());
    // Position 0 grades the actual token 8 against real candidates.
    assert!(!records[0].top.is_empty());
}

#[test]
fn context_capacity_has_margin_and_floor() {
    assert_eq!(context_capacity(0), 4096);
    assert_eq!(context_capacity(3584), 4096);
    assert_eq!(context_capacity(3585), 4097);
    assert_eq!(context_capacity(10000), 10512);
}

#[test]
fn assembly_places_records_behind_their_tokens() {
    let records = vec![
        PositionRecord {
            rank: 4,
            probability_bits: (0.25f32).to_bits(),
            top: vec![(9, (0.5f32).to_bits())],
        },
        PositionRecord { rank: 1, probability_bits: 0, top: vec![] },
    ];
    let result = assemble_result(
        vec!["a".to_string(), "b".to_string()],
        records,
        vec![vec!["x".to_string()], vec![]],
        42,
    );
    assert_eq!(result.processing_time_ms, 42);
    assert_eq!(result.tokens.len(), 2);

    // The first token is a placeholder: nothing preceded it.
    assert_eq!(result.tokens[0].text, "a");
    assert_eq!(result.tokens[0].rank, 1);
    assert_eq!(result.tokens[0].probability_bits, 0);
    assert!(result.tokens[0].top_predictions.is_empty());

    // The second token carries the record of the position that predicted it.
    assert_eq!(result.tokens[1].text, "b");
    assert_eq!(result.tokens[1].rank, 4);
    assert_eq!(result.tokens[1].probability_bits, (0.25f32).to_bits());
    assert_eq!(
        result.tokens[1].top_predictions,
        vec![("x".to_string(), (0.5f32).to_bits())]
    );
}
