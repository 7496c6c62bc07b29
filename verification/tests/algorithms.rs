use markov_runner::algorithms::{binary_to_unary_node, random_march};
use markov_runner::{run_markov_1d, step_markov_1d};

#[test]
fn binary_to_unary_converts() {
    let node = binary_to_unary_node();
    assert_eq!(&run_markov_1d("110", &node), "xxxxxx");
    assert_eq!(&run_markov_1d("1", &node), "x");
    assert_eq!(&run_markov_1d("0", &node), "");
}

#[test]
fn random_march_moves_the_walker() {
    let node = random_march();
    let legal = [Some("OOX".to_owned()), Some("XOO".to_owned())];
    let mut seen_left = false;
    let mut seen_right = false;
    for _ in 0..200 {
        let out = step_markov_1d("OXO", &node);
        assert!(legal.contains(&out));
        seen_left = seen_left || out == legal[1];
        seen_right = seen_right || out == legal[0];
    }
    assert!(seen_left && seen_right);
    assert_eq!(step_markov_1d("OOO", &node), None);
}
