//! The nodes a Markov algorithm is built from: single rules, ordered
//! sequences, and uniformly random choices.
//!
//! Random draws make a node's answer nondeterministic, so a node's behaviour
//! is specified as a relation: `can_produce` lists every answer the node is
//! allowed to give, and `apply` is proved to stay inside that relation for
//! whatever the random source returns.

use crate::matching::{
    find_all, find_first, find_last, has_match, is_first_match, is_last_match, occurs_at,
    rewrite_at, rewritten,
};
use vstd::prelude::*;

verus! {

/// The matching strategy a rule uses when its pattern occurs several times.
/// - First: the lowest occurrence offset is rewritten.
/// - Last: the highest occurrence offset is rewritten.
/// - Random: a uniformly random occurrence offset is rewritten, overlapping
///   occurrences included.
#[derive(Debug)]
pub enum MatchingStrategy {
    First,
    Last,
    Random,
}

impl MatchingStrategy {
    /// The occurrence offsets of `p` in `s` that this strategy may pick.
    pub open spec fn locate_ok(self, s: Seq<char>, p: Seq<char>, i: int) -> bool {
        match self {
            MatchingStrategy::First => is_first_match(s, p, i),
            MatchingStrategy::Last => is_last_match(s, p, i),
            MatchingStrategy::Random => occurs_at(s, p, i),
        }
    }

    /// Pick the occurrence of `pattern` in `haystack` that is to be
    /// rewritten, or nothing when the pattern does not occur.
    pub fn locate(&self, haystack: &str, pattern: &str) -> (r: Option<usize>)
        requires
            pattern@.len() >= 1,
        ensures
            r is Some <==> has_match(haystack@, pattern@),
            match r {
                Some(i) => self.locate_ok(haystack@, pattern@, i as int),
                None => !has_match(haystack@, pattern@),
            },
    {
        match self {
            MatchingStrategy::First => find_first(haystack, pattern),
            MatchingStrategy::Last => find_last(haystack, pattern),
            MatchingStrategy::Random => {
                let occ = find_all(haystack, pattern);
                if occ.len() == 0 {
                    proof {
                        if has_match(haystack@, pattern@) {
                            let i = choose|i: int| occurs_at(haystack@, pattern@, i);
                            assert(occurs_at(haystack@, pattern@, i));
                        }
                    }
                    None
                } else {
                    let k = random_below(occ.len());
                    Some(occ[k])
                }
            },
        }
    }
}

/// Relies on rand's `RngExt::random_range` over `0..n`: a uniform draw from
/// that range is below `n`, and the range is non-empty, so the call does not
/// panic. Nothing more is assumed of the draw.
#[verifier::external_body]
fn random_below(n: usize) -> (r: usize)
    requires
        n > 0,
    ensures
        r < n,
{
    rand::RngExt::random_range(&mut rand::rng(), 0..n)
}

/// A node of a Markov algorithm: one attempt to rewrite a string, answering
/// either the rewritten string or nothing when no rule matched.
pub trait Node {
    /// The node is well formed: every rule in it has a non-empty pattern.
    spec fn wf(&self) -> bool;

    /// The answers this node may give on `input`: `None` when the node may
    /// report "no match", `Some(t)` when it may rewrite `input` to `t`.
    spec fn can_produce(&self, input: Seq<char>, output: Option<Seq<char>>) -> bool;

    /// One rewrite attempt against `input`. The input is never mutated; a
    /// successful attempt answers a fresh string.
    fn apply(&self, input: &str) -> (r: Option<String>)
        requires
            self.wf(),
        ensures
            self.can_produce(input@, r.deep_view()),
    ;

    /// Whether the node is well formed, as an executable check.
    fn well_formed(&self) -> (r: bool)
        ensures
            r == self.wf(),
    ;
}

/// A leaf node: rewrites one occurrence of `pattern` into `output`, the
/// occurrence being chosen by `matching_strategy`.
#[derive(Debug)]
pub struct Rule {
    pub pattern: String,
    pub output: String,
    pub matching_strategy: MatchingStrategy,
}

/// A composite node: tries its children in order and keeps the first
/// successful rewrite, so that earlier children pre-empt later ones.
#[derive(Debug)]
pub struct Sequence {
    pub nodes: Vec<NodeBox>,
}

/// A composite node: picks one child uniformly at random and answers exactly
/// that child's attempt, even when the chosen child fails to match.
#[derive(Debug)]
pub struct RandomChoice {
    pub nodes: Vec<NodeBox>,
}

/// A node of any kind, as stored inside a composite node.
#[derive(Debug)]
pub enum NodeBox {
    Rule(Rule),
    Sequence(Sequence),
    RandomChoice(RandomChoice),
}

/// Every rule in the tree below `n` has a non-empty pattern.
pub open spec fn node_wf(n: NodeBox) -> bool
    decreases n,
{
    match n {
        NodeBox::Rule(r) => r.wf(),
        NodeBox::Sequence(s) => children_wf(s.nodes@),
        NodeBox::RandomChoice(c) => children_wf(c.nodes@),
    }
}

/// Every node of `ns` is well formed.
pub open spec fn children_wf(ns: Seq<NodeBox>) -> bool
    decreases ns,
{
    forall|i: int| 0 <= i < ns.len() ==> node_wf(#[trigger] ns[i])
}

/// The answers a node of any kind may give on `input`.
pub open spec fn node_can_produce(n: NodeBox, input: Seq<char>, output: Option<Seq<char>>) -> bool
    decreases n,
{
    match n {
        NodeBox::Rule(r) => r.can_produce(input, output),
        NodeBox::Sequence(s) => sequence_can_produce(s.nodes@, input, output),
        NodeBox::RandomChoice(c) => choice_can_produce(c.nodes@, input, output),
    }
}

/// The answers an ordered list of children may give: "no match" only when
/// every child may answer "no match", and a rewrite only from the first child
/// that does not answer "no match".
pub open spec fn sequence_can_produce(
    ns: Seq<NodeBox>,
    input: Seq<char>,
    output: Option<Seq<char>>,
) -> bool
    decreases ns,
{
    match output {
        None => forall|i: int| 0 <= i < ns.len() ==> node_can_produce(#[trigger] ns[i], input, None),
        Some(t) => exists|i: int|
            0 <= i < ns.len() && node_can_produce(#[trigger] ns[i], input, Some(t)) && (forall|
                j: int,
            |
                0 <= j < i ==> node_can_produce(ns[j], input, None)),
    }
}

/// The answers a uniformly random choice among children may give: with no
/// child only "no match", otherwise exactly what some one child may answer.
pub open spec fn choice_can_produce(
    ns: Seq<NodeBox>,
    input: Seq<char>,
    output: Option<Seq<char>>,
) -> bool
    decreases ns,
{
    if ns.len() == 0 {
        output is None
    } else {
        exists|i: int| 0 <= i < ns.len() && node_can_produce(#[trigger] ns[i], input, output)
    }
}

impl Rule {
    /// Create a new Rule with the First matching strategy.
    pub fn new(pattern: &str, output: &str) -> (r: Rule)
        requires
            pattern@.len() >= 1,
        ensures
            r.pattern@ == pattern@,
            r.output@ == output@,
            r.matching_strategy is First,
    {
        Rule {
            pattern: String::from_str(pattern),
            output: String::from_str(output),
            matching_strategy: MatchingStrategy::First,
        }
    }

    /// Create a new Rule already wrapped as a node, ready to be added to a
    /// composite node.
    pub fn boxed(input: &str, output: &str) -> (r: NodeBox)
        requires
            input@.len() >= 1,
        ensures
            r matches NodeBox::Rule(rule) && rule.pattern@ == input@ && rule.output@ == output@
                && rule.matching_strategy is First,
    {
        NodeBox::Rule(Rule::new(input, output))
    }

    /// Set the matching strategy for this Rule.
    pub fn set_matching_strategy(self, matching_strategy: MatchingStrategy) -> (r: Rule)
        ensures
            r.pattern == self.pattern,
            r.output == self.output,
            r.matching_strategy == matching_strategy,
    {
        Rule { matching_strategy, ..self }
    }
}

impl Node for Rule {
    open spec fn wf(&self) -> bool {
        self.pattern@.len() >= 1
    }

    open spec fn can_produce(&self, input: Seq<char>, output: Option<Seq<char>>) -> bool {
        match output {
            None => !has_match(input, self.pattern@),
            Some(t) => exists|i: int|
                self.matching_strategy.locate_ok(input, self.pattern@, i) && t == rewritten(
                    input,
                    self.pattern@,
                    self.output@,
                    i,
                ),
        }
    }

    fn apply(&self, input: &str) -> (r: Option<String>) {
        match self.matching_strategy.locate(input, self.pattern.as_str()) {
            Some(i) => {
                proof {
                    lemma_locate_ok_occurs(
                        self.matching_strategy,
                        input@,
                        self.pattern@,
                        i as int,
                    );
                }
                Some(rewrite_at(input, self.pattern.as_str(), self.output.as_str(), i))
            },
            None => None,
        }
    }

    fn well_formed(&self) -> (r: bool) {
        !self.pattern.as_str().is_empty()
    }
}

/// An offset a strategy may pick is an offset where the pattern occurs.
pub proof fn lemma_locate_ok_occurs(st: MatchingStrategy, s: Seq<char>, p: Seq<char>, i: int)
    requires
        st.locate_ok(s, p, i),
    ensures
        occurs_at(s, p, i),
{
}

impl Sequence {
    /// Create a new Sequence with no children.
    pub fn new() -> (r: Sequence)
        ensures
            r.nodes@.len() == 0,
    {
        Sequence { nodes: Vec::new() }
    }

    /// Add a child node at the end of the Sequence. The new child is tried
    /// only when every earlier child failed to rewrite.
    pub fn add_node(self, node: NodeBox) -> (r: Sequence)
        ensures
            r.nodes@ == self.nodes@.push(node),
    {
        let mut s = self;
        s.nodes.push(node);
        s
    }
}

impl Node for Sequence {
    open spec fn wf(&self) -> bool {
        children_wf(self.nodes@)
    }

    open spec fn can_produce(&self, input: Seq<char>, output: Option<Seq<char>>) -> bool {
        sequence_can_produce(self.nodes@, input, output)
    }

    fn apply(&self, input: &str) -> (r: Option<String>) {
        sequence_apply(&self.nodes, input)
    }

    fn well_formed(&self) -> (r: bool) {
        children_well_formed(&self.nodes)
    }
}

impl RandomChoice {
    /// Create a new RandomChoice with no children.
    pub fn new() -> (r: RandomChoice)
        ensures
            r.nodes@.len() == 0,
    {
        RandomChoice { nodes: Vec::new() }
    }

    /// Add a child node that can be chosen when applying the RandomChoice.
    pub fn add_node(self, node: NodeBox) -> (r: RandomChoice)
        ensures
            r.nodes@ == self.nodes@.push(node),
    {
        let mut c = self;
        c.nodes.push(node);
        c
    }
}

impl Node for RandomChoice {
    open spec fn wf(&self) -> bool {
        children_wf(self.nodes@)
    }

    open spec fn can_produce(&self, input: Seq<char>, output: Option<Seq<char>>) -> bool {
        choice_can_produce(self.nodes@, input, output)
    }

    fn apply(&self, input: &str) -> (r: Option<String>) {
        choice_apply(&self.nodes, input)
    }

    fn well_formed(&self) -> (r: bool) {
        children_well_formed(&self.nodes)
    }
}

impl Node for NodeBox {
    open spec fn wf(&self) -> bool {
        node_wf(*self)
    }

    open spec fn can_produce(&self, input: Seq<char>, output: Option<Seq<char>>) -> bool {
        node_can_produce(*self, input, output)
    }

    fn apply(&self, input: &str) -> (r: Option<String>) {
        node_apply(self, input)
    }

    fn well_formed(&self) -> (r: bool) {
        node_well_formed(self)
    }
}

/// Whether every rule in the tree below `n` has a non-empty pattern.
fn node_well_formed(n: &NodeBox) -> (r: bool)
    ensures
        r == node_wf(*n),
    decreases *n,
{
    match n {
        NodeBox::Rule(rule) => !rule.pattern.as_str().is_empty(),
        NodeBox::Sequence(s) => children_well_formed(&s.nodes),
        NodeBox::RandomChoice(c) => children_well_formed(&c.nodes),
    }
}

/// Whether every node of `ns` is well formed.
fn children_well_formed(ns: &Vec<NodeBox>) -> (r: bool)
    ensures
        r == children_wf(ns@),
    decreases ns@,
{
    let mut i: usize = 0;
    while i < ns.len()
        invariant
            i <= ns@.len(),
            forall|j: int| 0 <= j < i ==> node_wf(#[trigger] ns@[j]),
        decreases ns@.len() - i,
    {
        if !node_well_formed(&ns[i]) {
            return false;
        }
        i += 1;
    }
    true
}

/// A rule whose pattern does not occur in the input answers "no match" and
/// nothing else.
pub proof fn lemma_rule_no_match(r: Rule, s: Seq<char>)
    requires
        !has_match(s, r.pattern@),
    ensures
        forall|o: Option<Seq<char>>| #[trigger] r.can_produce(s, o) <==> o is None,
{
    assert forall|o: Option<Seq<char>>| #[trigger] r.can_produce(s, o) <==> o is None by {
        if o is Some && r.can_produce(s, o) {
            let i = choose|i: int|
                r.matching_strategy.locate_ok(s, r.pattern@, i) && o->0 == rewritten(
                    s,
                    r.pattern@,
                    r.output@,
                    i,
                );
            lemma_locate_ok_occurs(r.matching_strategy, s, r.pattern@, i);
            assert(has_match(s, r.pattern@));
        }
    }
}

/// With the First strategy, a rule on a matching input rewrites exactly the
/// lowest occurrence, and answers nothing else.
pub proof fn lemma_rule_first_exact(r: Rule, s: Seq<char>, i: int)
    requires
        r.matching_strategy is First,
        is_first_match(s, r.pattern@, i),
    ensures
        forall|o: Option<Seq<char>>| #[trigger] r.can_produce(s, o) <==> o == Some(
            rewritten(s, r.pattern@, r.output@, i),
        ),
{
    assert forall|o: Option<Seq<char>>| #[trigger] r.can_produce(s, o) <==> o == Some(
        rewritten(s, r.pattern@, r.output@, i),
    ) by {
        match o {
            None => {
                assert(has_match(s, r.pattern@));
            },
            Some(t) => {
                if r.can_produce(s, o) {
                    let j = choose|j: int|
                        r.matching_strategy.locate_ok(s, r.pattern@, j) && t == rewritten(
                            s,
                            r.pattern@,
                            r.output@,
                            j,
                        );
                    crate::matching::lemma_first_match_unique(s, r.pattern@, i, j);
                }
                if t == rewritten(s, r.pattern@, r.output@, i) {
                    assert(r.matching_strategy.locate_ok(s, r.pattern@, i));
                }
            },
        }
    }
}

/// With the Last strategy, a rule on a matching input rewrites exactly the
/// highest occurrence, and answers nothing else.
pub proof fn lemma_rule_last_exact(r: Rule, s: Seq<char>, i: int)
    requires
        r.matching_strategy is Last,
        is_last_match(s, r.pattern@, i),
    ensures
        forall|o: Option<Seq<char>>| #[trigger] r.can_produce(s, o) <==> o == Some(
            rewritten(s, r.pattern@, r.output@, i),
        ),
{
    assert forall|o: Option<Seq<char>>| #[trigger] r.can_produce(s, o) <==> o == Some(
        rewritten(s, r.pattern@, r.output@, i),
    ) by {
        match o {
            None => {
                assert(has_match(s, r.pattern@));
            },
            Some(t) => {
                if r.can_produce(s, o) {
                    let j = choose|j: int|
                        r.matching_strategy.locate_ok(s, r.pattern@, j) && t == rewritten(
                            s,
                            r.pattern@,
                            r.output@,
                            j,
                        );
                    crate::matching::lemma_last_match_unique(s, r.pattern@, i, j);
                }
                if t == rewritten(s, r.pattern@, r.output@, i) {
                    assert(r.matching_strategy.locate_ok(s, r.pattern@, i));
                }
            },
        }
    }
}

/// With the Random strategy, the rewrites a rule may answer are exactly the
/// replacements at the valid occurrence offsets: every such offset is
/// eligible, overlapping occurrences included, and no other offset is.
pub proof fn lemma_rule_random_outputs(r: Rule, s: Seq<char>, t: Seq<char>)
    requires
        r.matching_strategy is Random,
    ensures
        r.can_produce(s, Some(t)) <==> exists|i: int|
            occurs_at(s, r.pattern@, i) && t == rewritten(s, r.pattern@, r.output@, i),
{
    if r.can_produce(s, Some(t)) {
        let i = choose|i: int|
            r.matching_strategy.locate_ok(s, r.pattern@, i) && t == rewritten(
                s,
                r.pattern@,
                r.output@,
                i,
            );
        assert(occurs_at(s, r.pattern@, i) && t == rewritten(s, r.pattern@, r.output@, i));
    }
    if exists|i: int| occurs_at(s, r.pattern@, i) && t == rewritten(s, r.pattern@, r.output@, i) {
        let i = choose|i: int|
            occurs_at(s, r.pattern@, i) && t == rewritten(s, r.pattern@, r.output@, i);
        assert(r.matching_strategy.locate_ok(s, r.pattern@, i) && t == rewritten(
            s,
            r.pattern@,
            r.output@,
            i,
        ));
    }
}

/// Earlier children of a sequence pre-empt later ones: when the first child
/// never answers "no match", the whole sequence answers exactly as the first
/// child, whatever the later children would do.
pub proof fn lemma_sequence_priority(
    children: Seq<NodeBox>,
    s: Seq<char>,
    o: Option<Seq<char>>,
)
    requires
        children.len() >= 1,
        !node_can_produce(children[0], s, None),
    ensures
        sequence_can_produce(children, s, o) <==> node_can_produce(children[0], s, o),
{
    match o {
        None => {
        },
        Some(t) => {
            if sequence_can_produce(children, s, o) {
                let i = choose|i: int|
                    0 <= i < children.len() && node_can_produce(children[i], s, Some(t)) && (
                    forall|j: int| 0 <= j < i ==> node_can_produce(children[j], s, None));
                assert(i == 0);
            }
            if node_can_produce(children[0], s, o) {
                assert(0 <= 0 < children.len() && node_can_produce(children[0], s, Some(t)) && (
                forall|j: int| 0 <= j < 0 ==> node_can_produce(children[j], s, None)));
            }
        },
    }
}

/// One rewrite attempt by a node of any kind.
fn node_apply(n: &NodeBox, input: &str) -> (r: Option<String>)
    requires
        node_wf(*n),
    ensures
        node_can_produce(*n, input@, r.deep_view()),
    decreases *n,
{
    match n {
        NodeBox::Rule(rule) => rule.apply(input),
        NodeBox::Sequence(s) => sequence_apply(&s.nodes, input),
        NodeBox::RandomChoice(c) => choice_apply(&c.nodes, input),
    }
}

/// Try the children in order; keep the first successful rewrite.
fn sequence_apply(ns: &Vec<NodeBox>, input: &str) -> (r: Option<String>)
    requires
        children_wf(ns@),
    ensures
        sequence_can_produce(ns@, input@, r.deep_view()),
    decreases ns@,
{
    let mut i: usize = 0;
    while i < ns.len()
        invariant
            children_wf(ns@),
            i <= ns@.len(),
            forall|j: int| 0 <= j < i ==> node_can_produce(#[trigger] ns@[j], input@, None),
        decreases ns@.len() - i,
    {
        let r = node_apply(&ns[i], input);
        if r.is_some() {
            return r;
        }
        i += 1;
    }
    None
}

/// Pick one child uniformly at random and answer its attempt.
fn choice_apply(ns: &Vec<NodeBox>, input: &str) -> (r: Option<String>)
    requires
        children_wf(ns@),
    ensures
        choice_can_produce(ns@, input@, r.deep_view()),
    decreases ns@,
{
    if ns.len() == 0 {
        None
    } else {
        let k = random_below(ns.len());
        node_apply(&ns[k], input)
    }
}

} // verus!
