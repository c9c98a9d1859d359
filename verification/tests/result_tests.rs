use perplex::result::{AnalysisResult, AnalyzedToken};

fn three_tokens() -> Vec<AnalyzedToken> {
    vec![
        AnalyzedToken::new("a".to_string(), 1, vec![], (0.9f32).to_bits()),
        AnalyzedToken::new("b".to_string(), 5, vec![], (0.1f32).to_bits()),
        AnalyzedToken::new("c".to_string(), 10, vec![], (0.05f32).to_bits()),
    ]
}

#[test]
fn test_average_rank() {
    let result = AnalysisResult::new(three_tokens(), 100);

    // The first token is excluded: the average is over ranks [5, 10].
    let average_rank = result.rank_sum() as f32 / result.scored_count() as f32;
    assert!((average_rank - 7.5).abs() < 0.1);
}

#[test]
fn test_perplexity() {
    let result = AnalysisResult::new(three_tokens(), 100);

    // The first token is excluded: perplexity over probabilities [0.1, 0.05].
    let bits = result.scored_probability_bits();
    let sum_log_probs: f32 = bits.iter().map(|&b| -f32::from_bits(b).ln()).sum();
    let perplexity = (sum_log_probs / bits.len() as f32).exp();
    assert!((perplexity - 14.14).abs() < 0.1);
}

#[test]
fn aggregates_consider_all_but_first() {
    let result = AnalysisResult::new(three_tokens(), 100);
    assert_eq!(result.scored_count(), 2);
    assert_eq!(result.rank_sum(), 15);
    assert_eq!(result.exact_count(), 0);
    assert_eq!(
        result.scored_probability_bits(),
        vec![(0.1f32).to_bits(), (0.05f32).to_bits()]
    );
}

#[test]
fn aggregates_empty_for_single_token() {
    let single = AnalysisResult::new(
        vec![AnalyzedToken::new("a".to_string(), 1, vec![], (0.9f32).to_bits())],
        7,
    );
    assert_eq!(single.scored_count(), 0);
    assert_eq!(single.rank_sum(), 0);
    assert_eq!(single.exact_count(), 0);
    assert_eq!(single.scored_probability_bits(), Vec::<u32>::new());

    let empty = AnalysisResult::new(vec![], 7);
    assert_eq!(empty.scored_count(), 0);
    assert_eq!(empty.rank_sum(), 0);
    assert_eq!(empty.exact_count(), 0);
    assert_eq!(empty.scored_probability_bits(), Vec::<u32>::new());
}

#[test]
fn aggregates_recompute_identically() {
    let result = AnalysisResult::new(three_tokens(), 100);
    assert_eq!(result.rank_sum(), result.rank_sum());
    assert_eq!(result.scored_count(), result.scored_count());
    assert_eq!(result.exact_count(), result.exact_count());
    assert_eq!(
        result.scored_probability_bits(),
        result.scored_probability_bits()
    );
}

#[test]
fn exact_count_counts_rank_one() {
    let tokens = vec![
        AnalyzedToken::new("a".to_string(), 9, vec![], 0),
        AnalyzedToken::new("b".to_string(), 1, vec![], (0.5f32).to_bits()),
        AnalyzedToken::new("c".to_string(), 2, vec![], (0.2f32).to_bits()),
        AnalyzedToken::new("d".to_string(), 1, vec![], (0.4f32).to_bits()),
    ];
    let result = AnalysisResult::new(tokens, 0);
    assert_eq!(result.exact_count(), 2);
    assert_eq!(result.scored_count(), 3);
}

#[test]
fn display_text_rewrites_control_characters() {
    let t = AnalyzedToken::new("a\nb\tc".to_string(), 1, vec![], 0);
    assert_eq!(t.text, "a\nb\tc");
    assert_eq!(t.display_text, "a\u{21b5}\nb\u{2192}c");

    let plain = AnalyzedToken::new("hello".to_string(), 3, vec![], 0);
    assert_eq!(plain.display_text, "hello");
}

#[test]
fn zero_probability_bits_encode_zero() {
    assert_eq!((0.0f32).to_bits(), 0u32);
}
