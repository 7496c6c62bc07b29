use markov_runner::nodes::{Node, Rule, Sequence};
use markov_runner::{run_markov_1d, step_markov_1d};

#[test]
fn basis() {
    let node = Sequence::new().add_node(Rule::boxed("AB", "BA"));
    let result = run_markov_1d("AB", &node);
    assert_eq!(&result, "BA")
}

#[test]
fn binary_converter() {
    let node = Sequence::new()
        .add_node(Rule::boxed("1", "0x"))
        .add_node(Rule::boxed("x0", "0xx"))
        .add_node(Rule::boxed("0", ""));
    let result = run_markov_1d("110", &node);
    assert_eq!(&result, "xxxxxx")
}

#[test]
fn step_one() {
    let node = Rule::new("AB", "BA");
    assert_eq!(step_markov_1d("ABAB", &node), Some("BAAB".to_owned()));
}

#[test]
fn run_at_fixpoint_is_identity() {
    let node = Sequence::new().add_node(Rule::boxed("AB", "BA"));
    assert_eq!(step_markov_1d("..", &node), None);
    assert_eq!(&run_markov_1d("..", &node), "..");
}

#[test]
fn empty_replacement_erases() {
    let node = Rule::new("0", "");
    assert_eq!(node.apply("00"), Some("0".to_owned()));
    assert_eq!(&run_markov_1d("000", &node), "");
}

#[test]
fn empty_input_never_matches() {
    let node = Rule::new("AB", "BA");
    assert_eq!(node.apply(""), None);
    assert_eq!(&run_markov_1d("", &node), "");
}

#[test]
fn multibyte_characters_rewrite() {
    let node = Rule::new("\u{e9}", "e");
    assert_eq!(&run_markov_1d("caf\u{e9}s caf\u{e9}s", &node), "cafes cafes");
}
