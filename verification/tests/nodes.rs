use markov_runner::nodes::{MatchingStrategy, Node, RandomChoice, Rule, Sequence};

#[test]
fn rule_valid() {
    let rule = Rule::new("AB", "BA");
    assert_eq!(rule.apply("AB"), Some("BA".to_owned()));
}

#[test]
fn rule_invalid() {
    let rule = Rule::new("AB", "BA");
    assert_eq!(rule.apply(".."), None);
}

#[test]
fn rule_matching_strategy() {
    let rule = Rule::new("AB", "BA").set_matching_strategy(MatchingStrategy::First);
    assert_eq!(rule.apply("ABABAB"), Some("BAABAB".to_owned()));

    let rule = Rule::new("AB", "BA").set_matching_strategy(MatchingStrategy::Last);
    assert_eq!(rule.apply("ABABAB"), Some("ABABBA".to_owned()));

    let rule = Rule::new("AB", "BA").set_matching_strategy(MatchingStrategy::Random);
    assert!([
        Some("BAABAB".to_owned()),
        Some("ABABBA".to_owned()),
        Some("ABBAAB".to_owned())
    ]
    .contains(&rule.apply("ABABAB")));

    // Overlaping patterns
    let rule = Rule::new("ABA", "BAB").set_matching_strategy(MatchingStrategy::Random);
    assert!(
        [Some("BABBAB".to_owned()), Some("ABBABB".to_owned()),].contains(&rule.apply("ABABAB"))
    );
}

#[test]
fn sequence_valid() {
    let sequence = Sequence::new()
        .add_node(Rule::boxed("AB", "BA"))
        .add_node(Rule::boxed("BB", "AA"));
    assert_eq!(sequence.apply("ABB"), Some("BAB".to_owned()));
    assert_eq!(sequence.apply("BBA"), Some("AAA".to_owned()));
}

#[test]
fn sequence_invalid() {
    let sequence = Sequence::new()
        .add_node(Rule::boxed("AB", "BA"))
        .add_node(Rule::boxed("BB", "AA"));
    assert_eq!(sequence.apply(".."), None);
}

#[test]
fn random_choice_valid() {
    let rd = RandomChoice::new()
        .add_node(Rule::boxed("AB", "BA"))
        .add_node(Rule::boxed("BB", "AA"));
    assert!([Some("BAB".to_owned()), Some("AAA".to_owned())].contains(&rd.apply("ABB")));
}

#[test]
fn random_choice_invalid() {
    let rd = Sequence::new()
        .add_node(Rule::boxed("AB", "BA"))
        .add_node(Rule::boxed("BB", "AA"));
    assert_eq!(rd.apply(".."), None);
}

#[test]
fn empty_sequence_never_matches() {
    let sequence = Sequence::new();
    assert_eq!(sequence.apply("AB"), None);
}

#[test]
fn empty_random_choice_never_matches() {
    let rd = RandomChoice::new();
    assert_eq!(rd.apply("AB"), None);
}

#[test]
fn chosen_child_does_not_fall_through() {
    // Both children of the choice rewrite every input they match, and only
    // one of the two patterns occurs: the step either rewrites that pattern
    // or, when the non-matching child was drawn, reports no match.
    let rd = RandomChoice::new()
        .add_node(Rule::boxed("AB", "BA"))
        .add_node(Rule::boxed("CD", "DC"));
    let mut saw_rewrite = false;
    let mut saw_no_match = false;
    for _ in 0..200 {
        match rd.apply("AB") {
            Some(s) => {
                assert_eq!(&s, "BA");
                saw_rewrite = true;
            }
            None => {
                saw_no_match = true;
            }
        }
    }
    assert!(saw_rewrite && saw_no_match);
}

#[test]
fn well_formed_checks_patterns() {
    let good = Sequence::new().add_node(Rule::boxed("AB", "BA"));
    assert!(good.well_formed());
    let bad = Sequence::new().add_node(markov_runner::nodes::NodeBox::Rule(Rule {
        pattern: String::new(),
        output: "x".to_owned(),
        matching_strategy: MatchingStrategy::First,
    }));
    assert!(!bad.well_formed());
}
