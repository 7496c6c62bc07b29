//! A verified engine for Markov algorithms: string-rewriting procedures given
//! as pattern/replacement rules that are applied repeatedly to a string until
//! no rule matches.
//!
//! The engine drives a tree of [`nodes::Node`]s: `step_markov_1d` makes one
//! rewrite attempt, `run_markov_1d` rewrites to a fixpoint. A rule set may
//! keep matching forever; bounding such a rule set is the caller's business,
//! and `run_markov_1d` would step through it practically forever.

use vstd::prelude::*;

pub mod algorithms;
pub mod display_methods;
pub mod matching;
pub mod nodes;
pub mod tokens;

use nodes::Node;

verus! {

/// `chain` is a run of the node: a non-empty list of strings each of which
/// the node may rewrite to the next.
pub open spec fn rewrite_chain<N: Node>(node: N, chain: Seq<Seq<char>>) -> bool {
    &&& chain.len() >= 1
    &&& forall|k: int|
        0 <= k < chain.len() - 1 ==> node.can_produce(#[trigger] chain[k], Some(chain[k + 1]))
}

/// The node may rewrite `s` to `t` in zero or more steps.
pub open spec fn reaches<N: Node>(node: N, s: Seq<char>, t: Seq<char>) -> bool {
    exists|chain: Seq<Seq<char>>|
        rewrite_chain(node, chain) && chain.first() == s && chain.last() == t
}

/// The node may rewrite `s` to `t` in exactly `n` steps.
pub open spec fn reaches_in<N: Node>(node: N, s: Seq<char>, t: Seq<char>, n: nat) -> bool {
    exists|chain: Seq<Seq<char>>|
        rewrite_chain(node, chain) && chain.len() == n + 1 && chain.first() == s && chain.last()
            == t
}

/// Every string reaches itself in zero steps.
pub proof fn lemma_reaches_in_refl<N: Node>(node: N, s: Seq<char>)
    ensures
        reaches_in(node, s, s, 0),
{
    let chain = seq![s];
    assert(rewrite_chain(node, chain));
    assert(chain.first() == s && chain.last() == s);
}

/// One more rewrite extends a run by one step.
pub proof fn lemma_reaches_in_step<N: Node>(node: N, s: Seq<char>, t: Seq<char>, u: Seq<char>, n: nat)
    requires
        reaches_in(node, s, t, n),
        node.can_produce(t, Some(u)),
    ensures
        reaches_in(node, s, u, n + 1),
{
    let chain = choose|chain: Seq<Seq<char>>|
        rewrite_chain(node, chain) && chain.len() == n + 1 && chain.first() == s && chain.last()
            == t;
    let longer = chain.push(u);
    assert forall|k: int|
        0 <= k < longer.len() - 1 implies node.can_produce(
        #[trigger] longer[k],
        Some(longer[k + 1]),
    ) by {
        if k < chain.len() - 1 {
            assert(longer[k] == chain[k] && longer[k + 1] == chain[k + 1]);
        } else {
            assert(longer[k] == chain[chain.len() - 1] && longer[k + 1] == u);
        }
    }
    assert(rewrite_chain(node, longer));
    assert(longer.first() == s && longer.last() == u);
}

/// A run of any exact length is a run.
pub proof fn lemma_reaches_in_reaches<N: Node>(node: N, s: Seq<char>, t: Seq<char>, n: nat)
    requires
        reaches_in(node, s, t, n),
    ensures
        reaches(node, s, t),
{
    let chain = choose|chain: Seq<Seq<char>>|
        rewrite_chain(node, chain) && chain.len() == n + 1 && chain.first() == s && chain.last()
            == t;
    assert(rewrite_chain(node, chain) && chain.first() == s && chain.last() == t);
}

/// A string the node can only answer "no match" on is a fixpoint: every run
/// from it stays at that same string, so `run_markov_1d` returns it unchanged.
pub proof fn lemma_run_fixpoint<N: Node>(node: N, x: Seq<char>, t: Seq<char>)
    requires
        forall|u: Seq<char>| !node.can_produce(x, Some(u)),
        reaches(node, x, t),
    ensures
        t == x,
{
    let chain = choose|chain: Seq<Seq<char>>|
        rewrite_chain(node, chain) && chain.first() == x && chain.last() == t;
    if chain.len() >= 2 {
        assert(node.can_produce(chain[0], Some(chain[1])));
        assert(false);
    }
}

/// Run one step of the specified Markov algorithm: one rewrite attempt
/// against the node, answering the rewritten string or nothing.
pub fn step_markov_1d<N: Node>(input: &str, node: &N) -> (r: Option<String>)
    requires
        node.wf(),
    ensures
        node.can_produce(input@, r.deep_view()),
{
    node.apply(input)
}

/// The number of rewrites after which `run_markov_1d` stops stepping: more
/// steps than any process performs, so in practice never reached.
pub const MAX_RUN_STEPS: u64 = 0xFFFF_FFFF_FFFF_FFFF;

/// Run the specified Markov algorithm to completion: step until a step
/// reports "no match", and return the last string. The result is reachable
/// from the input by rewrites of the node and is a string the node reported
/// "no match" on. Bounding a rule set that never stops matching is the
/// caller's responsibility: on such a rule set this steps `MAX_RUN_STEPS`
/// times - practically forever - before giving the reached string back.
pub fn run_markov_1d<N: Node>(input: &str, node: &N) -> (r: String)
    requires
        node.wf(),
    ensures
        reaches(*node, input@, r@),
        node.can_produce(r@, None) || reaches_in(*node, input@, r@, MAX_RUN_STEPS as nat),
{
    let mut current = String::from_str(input);
    let mut steps: u64 = 0;
    proof {
        lemma_reaches_in_refl(*node, input@);
    }
    while steps < MAX_RUN_STEPS
        invariant
            node.wf(),
            steps <= MAX_RUN_STEPS,
            reaches_in(*node, input@, current@, steps as nat),
        decreases MAX_RUN_STEPS - steps,
    {
        match step_markov_1d(current.as_str(), node) {
            Some(next) => {
                proof {
                    lemma_reaches_in_step(*node, input@, current@, next@, steps as nat);
                }
                current = next;
                steps += 1;
            },
            None => {
                proof {
                    lemma_reaches_in_reaches(*node, input@, current@, steps as nat);
                }
                return current;
            },
        }
    }
    proof {
        lemma_reaches_in_reaches(*node, input@, current@, steps as nat);
    }
    current
}

} // verus!
