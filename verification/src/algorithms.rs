//! The preset algorithms the front end can run, built from the core nodes.

use crate::nodes::{children_wf, node_wf, Node, NodeBox, RandomChoice, Rule, Sequence};
use vstd::prelude::*;

verus! {

/// The preset algorithms the front end offers.
#[derive(Debug, Clone)]
pub enum Algorithm {
    BinaryToUnary,
    RandomMarch,
}

/// The binary-to-unary converter: rewrites a binary number over `1`/`0`
/// into a row of `x`, one `x` per unit of the number's value.
pub fn binary_to_unary_node() -> (r: Sequence)
    ensures
        r.wf(),
        r.nodes@.len() == 3,
        (r.nodes@[0] matches NodeBox::Rule(a) && a.pattern@ == "1"@ && a.output@ == "0x"@
            && a.matching_strategy is First),
        (r.nodes@[1] matches NodeBox::Rule(b) && b.pattern@ == "x0"@ && b.output@ == "0xx"@
            && b.matching_strategy is First),
        (r.nodes@[2] matches NodeBox::Rule(c) && c.pattern@ == "0"@ && c.output@ == ""@
            && c.matching_strategy is First),
{
    proof {
        reveal_strlit("1");
        reveal_strlit("x0");
        reveal_strlit("0");
    }
    Sequence::new().add_node(Rule::boxed("1", "0x")).add_node(Rule::boxed("x0", "0xx")).add_node(
        Rule::boxed("0", ""),
    )
}

/// A toy automaton: a walker `X` marches randomly left or right over a row
/// of `O` cells.
pub fn random_march() -> (r: Sequence)
    ensures
        r.wf(),
        r.nodes@.len() == 1,
        (r.nodes@[0] matches NodeBox::RandomChoice(c) && c.nodes@.len() == 2 && (c.nodes@[0]
            matches NodeBox::Rule(a) && a.pattern@ == "OXO"@ && a.output@ == "OOX"@
            && a.matching_strategy is First) && (c.nodes@[1] matches NodeBox::Rule(b)
            && b.pattern@ == "OXO"@ && b.output@ == "XOO"@ && b.matching_strategy is First)),
{
    proof {
        reveal_strlit("OXO");
    }
    let inner = RandomChoice::new().add_node(Rule::boxed("OXO", "OOX")).add_node(
        Rule::boxed("OXO", "XOO"),
    );
    let r = Sequence::new().add_node(NodeBox::RandomChoice(inner));
    proof {
        assert(node_wf(inner.nodes@[0]));
        assert(node_wf(inner.nodes@[1]));
        assert(children_wf(inner.nodes@));
        assert(r.nodes@[0] == NodeBox::RandomChoice(inner));
        assert(node_wf(r.nodes@[0]));
    }
    r
}

} // verus!
