//! A simpler, fully deterministic variant of the node abstraction: tokens
//! always rewrite the first occurrence, so a token's behaviour is a function
//! of the input and composites can be generic instead of polymorphic.

use crate::matching::{
    find_first, first_match_index, has_match, is_first_match, lemma_first_match_unique,
    rewrite_at, rewritten,
};
use vstd::prelude::*;

verus! {

/// A deterministic rewriting step: what it answers is a function of the
/// input string alone, given by `spec_apply`.
pub trait Token {
    /// The token is well formed: every rule in it has a non-empty pattern.
    spec fn wf(&self) -> bool;

    /// The answer this token gives on `input`: `None` for "no match",
    /// `Some(t)` for a rewrite of `input` into `t`.
    spec fn spec_apply(&self, input: Seq<char>) -> Option<Seq<char>>;

    /// One rewrite attempt against `input`.
    fn apply(&self, input: &str) -> (r: Option<String>)
        requires
            self.wf(),
        ensures
            r.deep_view() == self.spec_apply(input@),
    ;
}

/// An ordered list of tokens, applied with priority: the first token that
/// rewrites the input decides the answer.
#[derive(Debug)]
pub struct Sequence<T: Token> {
    pub tokens: Vec<T>,
}

/// A leaf token: rewrites the first occurrence of `input` into `output`.
#[derive(Debug)]
pub struct Rule {
    pub input: String,
    pub output: String,
}

/// What an ordered list of tokens answers: the first answer that is a
/// rewrite, or "no match" when every token reports "no match".
pub open spec fn tokens_apply<T: Token>(ts: Seq<T>, input: Seq<char>) -> Option<Seq<char>>
    decreases ts.len(),
{
    if ts.len() == 0 {
        None
    } else {
        match ts[0].spec_apply(input) {
            Some(t) => Some(t),
            None => tokens_apply(ts.drop_first(), input),
        }
    }
}

/// Every token of `ts` is well formed.
pub open spec fn tokens_wf<T: Token>(ts: Seq<T>) -> bool {
    forall|i: int| 0 <= i < ts.len() ==> (#[trigger] ts[i]).wf()
}

impl<T: Token> Sequence<T> {
    /// Create a new Sequence with no tokens.
    pub fn new() -> (r: Self)
        ensures
            r.tokens@.len() == 0,
    {
        Sequence { tokens: Vec::new() }
    }

    /// Add a token at the end of the Sequence. The new token is tried only
    /// when every earlier token failed to rewrite.
    pub fn add_rule(self, token: T) -> (r: Self)
        ensures
            r.tokens@ == self.tokens@.push(token),
    {
        let mut s = self;
        s.tokens.push(token);
        s
    }
}

impl<T: Token> Token for Sequence<T> {
    open spec fn wf(&self) -> bool {
        tokens_wf(self.tokens@)
    }

    open spec fn spec_apply(&self, input: Seq<char>) -> Option<Seq<char>> {
        tokens_apply(self.tokens@, input)
    }

    fn apply(&self, input: &str) -> (r: Option<String>) {
        let ghost all = self.tokens@;
        proof {
            assert(all.skip(0) =~= all);
        }
        let mut i: usize = 0;
        while i < self.tokens.len()
            invariant
                all == self.tokens@,
                tokens_wf(all),
                i <= all.len(),
                tokens_apply(all, input@) == tokens_apply(all.skip(i as int), input@),
            decreases all.len() - i,
        {
            proof {
                assert(all.skip(i as int)[0] == all[i as int]);
            }
            let r = self.tokens[i].apply(input);
            if r.is_some() {
                return r;
            }
            proof {
                assert(all.skip(i as int).drop_first() =~= all.skip(i as int + 1));
            }
            i += 1;
        }
        proof {
            assert(all.skip(i as int).len() == 0);
        }
        None
    }
}

impl Rule {
    /// Create a new Rule.
    pub fn new(input: &str, output: &str) -> (r: Rule)
        requires
            input@.len() >= 1,
        ensures
            r.input@ == input@,
            r.output@ == output@,
    {
        Rule { input: String::from_str(input), output: String::from_str(output) }
    }
}

impl Token for Rule {
    open spec fn wf(&self) -> bool {
        self.input@.len() >= 1
    }

    open spec fn spec_apply(&self, s: Seq<char>) -> Option<Seq<char>> {
        if has_match(s, self.input@) {
            Some(rewritten(s, self.input@, self.output@, first_match_index(s, self.input@)))
        } else {
            None
        }
    }

    fn apply(&self, input: &str) -> (r: Option<String>) {
        match find_first(input, self.input.as_str()) {
            Some(i) => {
                proof {
                    assert(has_match(input@, self.input@));
                    assert(exists|j: int| is_first_match(input@, self.input@, j));
                    let j = first_match_index(input@, self.input@);
                    assert(is_first_match(input@, self.input@, j));
                    lemma_first_match_unique(input@, self.input@, i as int, j);
                }
                Some(rewrite_at(input, self.input.as_str(), self.output.as_str(), i))
            },
            None => None,
        }
    }
}

} // verus!
