//! The random strategy and the random choice promise that only legal
//! outcomes appear and that every legal outcome stays reachable; these tests
//! draw many samples and check the observed sets.

use markov_runner::nodes::{MatchingStrategy, Node, RandomChoice, Rule};
use std::collections::HashSet;

#[test]
fn random_strategy_hits_every_offset() {
    let rule = Rule::new("AB", "BA").set_matching_strategy(MatchingStrategy::Random);
    let legal: HashSet<String> = ["BAABAB", "ABBAAB", "ABABBA"]
        .iter()
        .map(|s| s.to_string())
        .collect();
    let mut seen: HashSet<String> = HashSet::new();
    for _ in 0..400 {
        let out = rule.apply("ABABAB").expect("the pattern occurs");
        assert!(legal.contains(&out));
        seen.insert(out);
    }
    assert_eq!(seen, legal);
}

#[test]
fn random_strategy_hits_overlapping_offsets() {
    let rule = Rule::new("ABA", "BAB").set_matching_strategy(MatchingStrategy::Random);
    let legal: HashSet<String> = ["BABBAB", "ABBABB"].iter().map(|s| s.to_string()).collect();
    let mut seen: HashSet<String> = HashSet::new();
    for _ in 0..400 {
        let out = rule.apply("ABABAB").expect("the pattern occurs");
        assert!(legal.contains(&out));
        seen.insert(out);
    }
    assert_eq!(seen, legal);
}

#[test]
fn random_choice_hits_every_child() {
    let rd = RandomChoice::new()
        .add_node(Rule::boxed("AB", "BA"))
        .add_node(Rule::boxed("BB", "AA"));
    let legal: HashSet<String> = ["BAB", "AAA"].iter().map(|s| s.to_string()).collect();
    let mut seen: HashSet<String> = HashSet::new();
    for _ in 0..400 {
        let out = rd.apply("ABB").expect("both children match ABB");
        assert!(legal.contains(&out));
        seen.insert(out);
    }
    assert_eq!(seen, legal);
}

#[test]
fn random_strategy_single_occurrence_is_deterministic() {
    let rule = Rule::new("AB", "BA").set_matching_strategy(MatchingStrategy::Random);
    for _ in 0..20 {
        assert_eq!(rule.apply("AB"), Some("BA".to_owned()));
    }
}
