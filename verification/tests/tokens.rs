use markov_runner::tokens::{Rule, Sequence, Token};

#[test]
fn token_rule_rewrites_first_occurrence() {
    let rule = Rule::new("AB", "BA");
    assert_eq!(rule.apply("ABAB"), Some("BAAB".to_owned()));
    assert_eq!(rule.apply(".."), None);
}

#[test]
fn token_sequence_applies_with_priority() {
    let sequence = Sequence::new()
        .add_rule(Rule::new("AB", "BA"))
        .add_rule(Rule::new("BB", "AA"));
    assert_eq!(sequence.apply("ABB"), Some("BAB".to_owned()));
    assert_eq!(sequence.apply("BBA"), Some("AAA".to_owned()));
    assert_eq!(sequence.apply(".."), None);
}

#[test]
fn empty_token_sequence_never_matches() {
    let sequence: Sequence<Rule> = Sequence::new();
    assert_eq!(sequence.apply("AB"), None);
}

#[test]
fn token_sequences_nest() {
    let inner = Sequence::new().add_rule(Rule::new("AB", "BA"));
    let outer = Sequence::new().add_rule(inner);
    assert_eq!(outer.apply("AAB"), Some("ABA".to_owned()));
}
