use text_diversity::{
    bleu, distinct_n, jaccard, pairwise_jaccard_diversity, self_bleu, self_bleu_diversity, tokenize, Bleu,
    Fraction, MetricError, PairwiseDiversity,
};

fn value(f: Fraction) -> f64 {
    f.num as f64 / f.den as f64
}

fn bleu_value(b: &Bleu) -> f64 {
    match b {
        Bleu::Zero => 0.0,
        Bleu::Positive { precisions, candidate_len, closest_ref_len } => {
            let log_sum: f64 = precisions.iter().map(|p| value(*p).ln()).sum();
            let mean = log_sum / precisions.len() as f64;
            let penalty = if candidate_len >= closest_ref_len {
                1.0
            } else {
                (1.0 - *closest_ref_len as f64 / *candidate_len as f64).exp()
            };
            penalty * mean.exp()
        }
    }
}

fn self_bleu_value(scores: &[Bleu]) -> f64 {
    if scores.is_empty() {
        return 0.0;
    }
    scores.iter().map(bleu_value).sum::<f64>() / scores.len() as f64
}

fn diversity_value(d: &PairwiseDiversity) -> f64 {
    if d.similarities.is_empty() {
        return 1.0;
    }
    let sum: f64 = d.similarities.iter().map(|f| value(*f)).sum();
    1.0 - sum / d.similarities.len() as f64
}

#[test]
fn jaccard_identical() {
    assert_eq!(value(jaccard("猫 追 狗", "猫 追 狗")), 1.0);
}

#[test]
fn jaccard_no_overlap() {
    assert_eq!(value(jaccard("猫 追 狗", "鸟 飞 天")), 0.0);
}

#[test]
fn jaccard_partial_overlap() {
    assert_eq!(value(jaccard("猫 追 狗", "猫 追 鼠")), 0.5);
}

#[test]
fn jaccard_empty_strings() {
    assert_eq!(value(jaccard("", "")), 1.0);
}

#[test]
fn diversity_identical_responses() {
    let responses = vec!["猫 追 狗", "猫 追 狗", "猫 追 狗"];
    assert_eq!(diversity_value(&pairwise_jaccard_diversity(&responses)), 0.0);
}

#[test]
fn diversity_no_overlap() {
    let responses = vec!["猫 追 狗", "鸟 飞 天", "鱼 游 水"];
    assert_eq!(diversity_value(&pairwise_jaccard_diversity(&responses)), 1.0);
}

#[test]
fn diversity_single_response() {
    assert_eq!(diversity_value(&pairwise_jaccard_diversity(&["猫 追 狗"])), 1.0);
}

#[test]
fn diversity_empty() {
    assert_eq!(diversity_value(&pairwise_jaccard_diversity(&[])), 1.0);
}

#[test]
fn distinct_n_all_same() {
    let responses = vec!["我 喜欢 苹果", "我 喜欢 苹果", "我 喜欢 苹果"];
    assert_eq!(value(distinct_n(&responses, 2).unwrap()), 2.0 / 6.0);
}

#[test]
fn distinct_n_all_different() {
    let responses = vec!["我 喜欢 苹果", "猫 追 狗"];
    assert_eq!(value(distinct_n(&responses, 2).unwrap()), 1.0);
}

#[test]
fn distinct_n_empty() {
    assert_eq!(value(distinct_n(&[], 2).unwrap()), 0.0);
}

#[test]
fn distinct_n_short_responses() {
    let responses = vec!["单词"];
    assert_eq!(value(distinct_n(&responses, 2).unwrap()), 0.0);
}

#[test]
fn bleu_identical() {
    assert_eq!(bleu_value(&bleu("猫 坐在 垫子 上", &["猫 坐在 垫子 上"], 4).unwrap()), 1.0);
}

#[test]
fn bleu_no_overlap() {
    assert_eq!(bleu_value(&bleu("猫 坐在 垫子 上", &["鸟 飞 在 天"], 4).unwrap()), 0.0);
}

#[test]
fn bleu_partial_overlap() {
    let score = bleu_value(&bleu("猫 坐在 地板 上", &["猫 坐在 垫子 上"], 2).unwrap());
    assert!(score > 0.0 && score < 1.0);
}

#[test]
fn self_bleu_identical() {
    let responses = vec!["猫 坐在 垫子 上", "猫 坐在 垫子 上", "猫 坐在 垫子 上"];
    assert_eq!(self_bleu_value(&self_bleu(&responses, 4).unwrap()), 1.0);
}

#[test]
fn self_bleu_no_overlap() {
    let responses = vec!["猫 坐在 垫子 上", "鸟 飞 在 天 空", "鱼 游 在 水 里"];
    assert_eq!(self_bleu_value(&self_bleu(&responses, 4).unwrap()), 0.0);
}

#[test]
fn self_bleu_diversity_identical() {
    let responses = vec!["猫 坐在 垫子 上", "猫 坐在 垫子 上"];
    assert_eq!(1.0 - self_bleu_value(&self_bleu_diversity(&responses, 4).unwrap()), 0.0);
}

#[test]
fn self_bleu_diversity_no_overlap() {
    let responses = vec!["猫 坐在 垫子 上", "鸟 飞 在 天 空"];
    assert_eq!(1.0 - self_bleu_value(&self_bleu_diversity(&responses, 4).unwrap()), 1.0);
}

#[test]
fn tokenize_collapses_whitespace() {
    let w = tokenize("  猫\t追 \n 狗  ");
    let expected: Vec<Vec<char>> = vec![vec!['猫'], vec!['追'], vec!['狗']];
    assert_eq!(w, expected);
    assert!(tokenize("   ").is_empty());
}

#[test]
fn jaccard_exact_fraction() {
    assert_eq!(jaccard("a b c", "c d"), Fraction { num: 1, den: 4 });
    assert_eq!(jaccard("a a b", "b a"), Fraction { num: 2, den: 2 });
}

#[test]
fn jaccard_is_symmetric_on_examples() {
    assert_eq!(jaccard("a b c", "b x"), jaccard("b x", "a b c"));
}

#[test]
fn jaccard_one_side_empty() {
    assert_eq!(jaccard("", "a"), Fraction { num: 0, den: 1 });
}

#[test]
fn distinct_n_counts_occurrences() {
    let responses = vec!["a b a b", "b a"];
    assert_eq!(distinct_n(&responses, 2).unwrap(), Fraction { num: 2, den: 4 });
    assert_eq!(distinct_n(&responses, 1).unwrap(), Fraction { num: 2, den: 6 });
}

#[test]
fn distinct_n_single_word_any_order() {
    assert_eq!(distinct_n(&["single"], 2).unwrap(), Fraction { num: 0, den: 1 });
    assert_eq!(distinct_n(&[], 5).unwrap(), Fraction { num: 0, den: 1 });
}

#[test]
fn distinct_n_zero_order_is_refused() {
    assert_eq!(distinct_n(&["a b"], 0), Err(MetricError::InvalidArgument));
}

#[test]
fn bleu_zero_order_is_refused() {
    assert!(matches!(bleu("a", &["a"], 0), Err(MetricError::InvalidArgument)));
    assert!(matches!(self_bleu(&["a", "b"], 0), Err(MetricError::InvalidArgument)));
}

#[test]
fn bleu_degenerate_inputs_are_zero() {
    assert!(bleu("", &["a b"], 1).unwrap().is_zero());
    assert!(bleu("a b", &[], 1).unwrap().is_zero());
}

#[test]
fn bleu_clips_to_largest_single_reference_count() {
    let b = bleu("a a a a", &["a a", "a b a a x"], 1).unwrap();
    match b {
        Bleu::Positive { precisions, candidate_len, closest_ref_len } => {
            assert_eq!(precisions, vec![Fraction { num: 3, den: 4 }]);
            assert_eq!(candidate_len, 4);
            assert_eq!(closest_ref_len, 5);
        }
        Bleu::Zero => panic!("expected a positive score"),
    }
}

#[test]
fn bleu_closest_reference_first_of_ties() {
    let b = bleu("a b c", &["a b c d e", "a b", "a b c d"], 1).unwrap();
    match b {
        Bleu::Positive { closest_ref_len, .. } => assert_eq!(closest_ref_len, 2),
        Bleu::Zero => panic!("expected a positive score"),
    }
}

#[test]
fn bleu_brevity_penalty_value() {
    let b = bleu("a b", &["a b c d"], 2).unwrap();
    let expected = (1.0f64 - 4.0 / 2.0).exp();
    assert!((bleu_value(&b) - expected).abs() < 1e-12);
}

#[test]
fn bleu_short_candidate_is_zero() {
    assert!(bleu("a b", &["a b"], 3).unwrap().is_zero());
}

#[test]
fn bleu_exact_match_is_one() {
    let b = bleu("x y z w", &["p q", "x y z w", "x y"], 4).unwrap();
    assert!(b.is_one());
}

#[test]
fn self_bleu_small_corpus_has_no_scores() {
    assert!(self_bleu(&["a b c"], 4).unwrap().is_empty());
    assert!(self_bleu(&[], 4).unwrap().is_empty());
    assert_eq!(self_bleu_value(&self_bleu(&["a b c"], 4).unwrap()), 0.0);
}

#[test]
fn self_bleu_scenario_two_identical() {
    let responses = vec!["猫 坐在 垫子 上", "猫 坐在 垫子 上"];
    let scores = self_bleu(&responses, 4).unwrap();
    assert!(scores.iter().all(|s| s.is_one()));
    assert_eq!(self_bleu_value(&scores), 1.0);
    assert_eq!(1.0 - self_bleu_value(&self_bleu_diversity(&responses, 4).unwrap()), 0.0);
}

#[test]
fn self_bleu_diversity_is_complement_on_example() {
    let responses = vec!["a b c d", "a b c e", "x y"];
    let s = self_bleu_value(&self_bleu(&responses, 2).unwrap());
    let d = self_bleu_value(&self_bleu_diversity(&responses, 2).unwrap());
    assert_eq!(1.0 - d, 1.0 - s);
    assert!(s > 0.0 && s < 1.0);
}

#[test]
fn pairwise_scenario_disjoint_three() {
    let d = pairwise_jaccard_diversity(&["猫 追 狗", "鸟 飞 天", "鱼 游 水"]);
    assert_eq!(d.similarities.len(), 3);
    assert!(d.similarities.iter().all(|f| f.num == 0 && f.den == 6));
    assert_eq!(diversity_value(&d), 1.0);
}

#[test]
fn pairwise_pairs_in_lexicographic_order() {
    let d = pairwise_jaccard_diversity(&["a", "a b", "b", "c"]);
    assert_eq!(
        d.similarities,
        vec![
            Fraction { num: 1, den: 2 },
            Fraction { num: 0, den: 2 },
            Fraction { num: 0, den: 2 },
            Fraction { num: 1, den: 2 },
            Fraction { num: 0, den: 3 },
            Fraction { num: 0, den: 2 },
        ]
    );
}
