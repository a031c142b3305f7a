use pmenu::fuzzy::{rank, score, score_folded, ScoredMatch};

fn strings(items: &[&str]) -> Vec<String> {
    items.iter().map(|s| s.to_string()).collect()
}

fn indices(r: &[ScoredMatch]) -> Vec<usize> {
    r.iter().map(|m| m.original_index).collect()
}

#[test]
fn score_rewards_contiguous_prefix() {
    assert_eq!(score("apple", "ap"), Some(2));
    assert_eq!(score("grape", "ap"), Some(1));
    assert_eq!(score("banana", "ap"), None);
}

#[test]
fn score_ignores_case() {
    assert_eq!(score("APPLE", "ap"), Some(2));
    assert_eq!(score("apple", "AP"), Some(2));
    assert_eq!(score("Foo", "zzz"), None);
}

#[test]
fn score_of_empty_pattern_is_zero() {
    assert_eq!(score("anything", ""), Some(0));
    assert_eq!(score("", ""), Some(0));
    assert_eq!(score("", "a"), None);
}

#[test]
fn score_sparse_match() {
    assert_eq!(score("a_b_c", "abc"), Some(1));
    assert_eq!(score("xabc", "abc"), Some(2));
    assert_eq!(score("abc", "abc"), Some(3));
}

#[test]
fn score_folded_takes_folded_input() {
    let t: Vec<char> = "abc".chars().collect();
    let p: Vec<char> = "ac".chars().collect();
    assert_eq!(score_folded(&t, &p), Some(1));
    let upper: Vec<char> = "A".chars().collect();
    assert_eq!(score_folded(&t, &upper), None);
}

#[test]
fn rank_empty_pattern_keeps_every_candidate_in_order() {
    let c = strings(&["zeta", "alpha", "mid", ""]);
    let r = rank(&c, "");
    assert_eq!(indices(&r), vec![0, 1, 2, 3]);
    for m in &r {
        assert_eq!(m.text, c[m.original_index]);
        assert_eq!(m.score, 0);
    }
}

#[test]
fn rank_filters_to_scored_subset() {
    let c = strings(&["apple", "banana", "grape"]);
    let r = rank(&c, "ap");
    assert_eq!(indices(&r), vec![0, 2]);
    assert_eq!(r[0].text, "apple");
    assert_eq!(r[0].score, 2);
    assert_eq!(r[1].text, "grape");
    assert_eq!(r[1].score, 1);
}

#[test]
fn rank_orders_by_descending_score_and_keeps_ties_stable() {
    let c = strings(&["xa_b", "ab", "a_b", "zab", "b"]);
    let r = rank(&c, "ab");
    assert_eq!(indices(&r), vec![1, 2, 3, 0]);
    let scores: Vec<usize> = r.iter().map(|m| m.score).collect();
    assert_eq!(scores, vec![2, 1, 1, 0]);
    for w in r.windows(2) {
        assert!(w[0].score > w[1].score || (w[0].score == w[1].score && w[0].original_index < w[1].original_index));
    }
}

#[test]
fn rank_of_no_candidates_is_empty() {
    let c: Vec<String> = Vec::new();
    assert!(rank(&c, "").is_empty());
    assert!(rank(&c, "a").is_empty());
}
