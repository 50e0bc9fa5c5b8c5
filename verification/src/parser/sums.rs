//! The grammar of sums of ones: the simplest grammar in which a sentence
//! has more than one derivation.

use crate::parser::prs::{alternatives_view, Grammar, GrammarTrait, Rule, RuleModel};
use vstd::prelude::*;

verus! {

/// The symbols of the grammar of sums: a sum, the sign, and the number 1.
#[derive(Hash, PartialEq, Eq, Structural, Clone, Copy, Debug)]
pub enum AmbigSymbols {
    S,
    Plus,
    One,
}

impl GrammarTrait for AmbigSymbols {
    fn start_sym() -> (r: Self)
        ensures
            r == AmbigSymbols::S,
    {
        Self::S
    }

    fn same(&self, other: &Self) -> (r: bool) {
        *self == *other
    }
}

/// The grammar `S -> S + S | 1`.
pub open spec fn spec_ambiguous_grammar() -> Seq<RuleModel<AmbigSymbols>> {
    seq![
        RuleModel {
            left_hand: AmbigSymbols::S,
            right_hand: seq![
                seq![AmbigSymbols::S, AmbigSymbols::Plus, AmbigSymbols::S],
                seq![AmbigSymbols::One],
            ],
        },
    ]
}

/// The grammar `S -> S + S | 1`, in which a sum of three ones has two
/// derivations.
pub fn ambiguous_grammar() -> (r: Grammar<AmbigSymbols>)
    ensures
        r@ == spec_ambiguous_grammar(),
{
    let mut sum: Vec<AmbigSymbols> = Vec::new();
    sum.push(AmbigSymbols::S);
    sum.push(AmbigSymbols::Plus);
    sum.push(AmbigSymbols::S);
    let mut one: Vec<AmbigSymbols> = Vec::new();
    one.push(AmbigSymbols::One);
    assert(sum@ =~= seq![AmbigSymbols::S, AmbigSymbols::Plus, AmbigSymbols::S]);
    assert(one@ =~= seq![AmbigSymbols::One]);
    let mut right_hand: Vec<Vec<AmbigSymbols>> = Vec::new();
    right_hand.push(sum);
    right_hand.push(one);
    assert(alternatives_view(right_hand@) =~= seq![
        seq![AmbigSymbols::S, AmbigSymbols::Plus, AmbigSymbols::S],
        seq![AmbigSymbols::One],
    ]);
    let mut rules: Vec<Rule<AmbigSymbols>> = Vec::new();
    rules.push(Rule { left_hand: AmbigSymbols::S, right_hand });
    let grammar = Grammar::new(rules);
    assert(grammar@ =~= spec_ambiguous_grammar());
    grammar
}

} // verus!
