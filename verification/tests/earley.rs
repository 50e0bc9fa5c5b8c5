use wasm_decomp::parser::prs::{
    earley_parser, Derivation, EarleyState, Grammar, GrammarTrait, Rule,
};
use wasm_decomp::parser::show::{earley_state_id, earley_state_repr};

#[derive(Hash, PartialEq, Eq, Clone, Copy, Debug)]
pub enum Symbols {
    P,
    S,
    M,
    T,
    One,
    Two,
    Three,
    Four,
    Times,
    Plus,
}

impl GrammarTrait for Symbols {
    fn start_sym() -> Self {
        Self::P
    }

    fn same(&self, other: &Self) -> bool {
        self == other
    }
}

fn rule<Sym: GrammarTrait>(left_hand: Sym, right_hand: &[&[Sym]]) -> Rule<Sym> {
    Rule { left_hand, right_hand: right_hand.iter().map(|alt| alt.to_vec()).collect() }
}

fn grammar() -> Grammar<Symbols> {
    Grammar::new(vec![
        rule(Symbols::P, &[&[Symbols::S]]),
        rule(Symbols::S, &[&[Symbols::S, Symbols::Plus, Symbols::M], &[Symbols::M]]),
        rule(Symbols::M, &[&[Symbols::M, Symbols::Times, Symbols::T], &[Symbols::T]]),
        rule(
            Symbols::T,
            &[&[Symbols::One], &[Symbols::Two], &[Symbols::Three], &[Symbols::Four]],
        ),
    ])
}

fn two_plus_three_times_four() -> Vec<Symbols> {
    vec![Symbols::Two, Symbols::Plus, Symbols::Three, Symbols::Times, Symbols::Four]
}

#[test]
fn earley_parser_test() {
    let sentence = two_plus_three_times_four();
    println!("TESTING GRAMMAR");
    assert!(earley_parser(sentence, &grammar()).is_some());
}

#[derive(Hash, PartialEq, Eq, Clone, Copy, Debug)]
pub enum AmbigSymbols {
    P,
    S,
    Plus,
    One,
}

impl GrammarTrait for AmbigSymbols {
    fn start_sym() -> Self {
        Self::P
    }

    fn same(&self, other: &Self) -> bool {
        self == other
    }
}

fn ambiguous_grammar() -> Grammar<AmbigSymbols> {
    Grammar::new(vec![
        rule(AmbigSymbols::P, &[&[AmbigSymbols::S]]),
        rule(
            AmbigSymbols::S,
            &[&[AmbigSymbols::S, AmbigSymbols::Plus, AmbigSymbols::S], &[AmbigSymbols::One]],
        ),
    ])
}

#[test]
fn ambiguous_earley_parser_test() {
    let sentence = vec![
        AmbigSymbols::One,
        AmbigSymbols::Plus,
        AmbigSymbols::One,
        AmbigSymbols::Plus,
        AmbigSymbols::One,
    ];
    println!("TESTING AMBIGUSOUS GRAMMAR");
    let result = earley_parser(sentence, &ambiguous_grammar());
    assert!(result.is_some());
    let result = result.unwrap();
    assert!(result.root.find_ambiguity(&result.states).is_some());
}

#[derive(Hash, PartialEq, Eq, Clone, Copy, Debug)]
pub enum SimpleGrammar {
    P,
    S,
    A,
}

impl GrammarTrait for SimpleGrammar {
    fn start_sym() -> Self {
        Self::P
    }

    fn same(&self, other: &Self) -> bool {
        self == other
    }
}

fn simple_grammar() -> Grammar<SimpleGrammar> {
    Grammar::new(vec![
        rule(SimpleGrammar::P, &[&[SimpleGrammar::S]]),
        rule(SimpleGrammar::S, &[&[SimpleGrammar::S, SimpleGrammar::S], &[SimpleGrammar::A]]),
    ])
}

#[test]
fn simple_ambiguous_earley_parser_test() {
    let sentence = vec![SimpleGrammar::A, SimpleGrammar::A, SimpleGrammar::A];
    println!("TESTING SIMPLE GRAMMAR");
    let result = earley_parser(sentence, &simple_grammar());
    assert!(result.is_some());
    let result = result.unwrap();
    assert!(result.root.find_ambiguity(&result.states).is_some());
}

#[derive(Hash, PartialEq, Eq, Clone, Copy, Debug)]
pub enum Sum {
    S,
    Plus,
    One,
}

impl GrammarTrait for Sum {
    fn start_sym() -> Self {
        Self::S
    }

    fn same(&self, other: &Self) -> bool {
        self == other
    }
}

fn sum_grammar() -> Grammar<Sum> {
    Grammar::new(vec![rule(Sum::S, &[&[Sum::S, Sum::Plus, Sum::S], &[Sum::One]])])
}

fn item<Sym: GrammarTrait>(
    from: Sym,
    to: &[Sym],
    origin: usize,
    end: usize,
    idx: usize,
) -> EarleyState<Sym> {
    EarleyState { from, to: to.to_vec(), origin, end, idx }
}

#[test]
fn ambiguous_sum_has_two_packed_nodes_at_the_root() {
    let sentence = vec![Sum::One, Sum::Plus, Sum::One, Sum::Plus, Sum::One];
    let sppf = earley_parser(sentence, &sum_grammar()).unwrap();
    let root = item(Sum::S, &[Sum::S, Sum::Plus, Sum::S], 0, 5, 3);
    assert!(sppf.root.same_state(&root));
    let (state, nodes) = &sppf.states[0];
    assert!(state.same_state(&root));
    assert_eq!(nodes.len(), 2);
    let found = sppf.root.find_ambiguity(&sppf.states).unwrap();
    assert!(found.same_state(&root));
}

#[test]
fn rejected_sentences() {
    assert!(earley_parser(vec![Sum::One, Sum::Plus], &sum_grammar()).is_none());
    assert!(earley_parser(vec![Sum::Plus], &sum_grammar()).is_none());
    assert!(earley_parser(Vec::new(), &sum_grammar()).is_none());
    // a sentence is accepted by the first alternative of the start symbol: a single
    // one is derived by the second alternative only
    assert!(earley_parser(vec![Sum::One], &sum_grammar()).is_none());
}

#[test]
fn grammar_without_start_rule_rejects() {
    let grammar = Grammar::new(vec![rule(Sum::One, &[&[Sum::Plus]])]);
    assert!(earley_parser(vec![Sum::Plus], &grammar).is_none());
}

#[test]
fn unambiguous_parse_has_no_ambiguity() {
    let sppf = earley_parser(two_plus_three_times_four(), &grammar()).unwrap();
    assert!(sppf.root.find_ambiguity(&sppf.states).is_none());
}

fn children_of<'a>(
    edges: &'a [(Derivation<Symbols>, Derivation<Symbols>)],
    parent: &EarleyState<Symbols>,
) -> Vec<&'a Derivation<Symbols>> {
    edges
        .iter()
        .filter(|(from, _)| {
            matches!(from, Derivation::CompletedFrom { state } if state.same_state(parent))
        })
        .map(|(_, to)| to)
        .collect()
}

#[test]
fn arithmetic_tree() {
    let sppf = earley_parser(two_plus_three_times_four(), &grammar()).unwrap();
    let tree = sppf.to_tree();
    let root = item(Symbols::P, &[Symbols::S], 0, 5, 1);
    assert!(matches!(&tree.root, Derivation::CompletedFrom { state } if state.same_state(&root)));
    // the root has one child: the sum over the whole sentence
    let sum = item(Symbols::S, &[Symbols::S, Symbols::Plus, Symbols::M], 0, 5, 3);
    let below_root = children_of(&tree.edges, &root);
    assert_eq!(below_root.len(), 1);
    assert!(matches!(below_root[0], Derivation::CompletedFrom { state } if state.same_state(&sum)));
    // its right child is the product over `3 * 4`
    let product = item(Symbols::M, &[Symbols::M, Symbols::Times, Symbols::T], 2, 5, 3);
    let below_sum = children_of(&tree.edges, &sum);
    assert_eq!(below_sum.len(), 2);
    assert!(matches!(below_sum[0], Derivation::CompletedFrom { state }
        if state.same_state(&item(Symbols::S, &[Symbols::S, Symbols::Plus, Symbols::M], 0, 2, 2))));
    assert!(
        matches!(below_sum[1], Derivation::CompletedFrom { state } if state.same_state(&product))
    );
    let below_product = children_of(&tree.edges, &product);
    assert_eq!(below_product.len(), 2);
    assert!(matches!(below_product[1], Derivation::CompletedFrom { state }
        if state.same_state(&item(Symbols::T, &[Symbols::Four], 4, 5, 1))));
    // the leaves read off the sentence, each once
    let mut leaves: Vec<(usize, Symbols)> = tree
        .edges
        .iter()
        .filter_map(|(_, to)| match to {
            Derivation::ScannedFrom { symbol, idx } => Some((*idx, *symbol)),
            _ => None,
        })
        .collect();
    leaves.sort_by_key(|leaf| leaf.0);
    let sentence = two_plus_three_times_four();
    let want: Vec<(usize, Symbols)> =
        sentence.iter().enumerate().map(|(i, symbol)| (i + 1, *symbol)).collect();
    assert_eq!(leaves, want);
}

#[derive(Hash, PartialEq, Eq, Clone, Copy, Debug)]
pub enum Loop {
    S,
    A,
    Unit,
}

impl GrammarTrait for Loop {
    fn start_sym() -> Self {
        Loop::S
    }

    fn same(&self, other: &Self) -> bool {
        self == other
    }
}

#[test]
fn a_rule_that_rewrites_a_symbol_to_itself() {
    // S -> A; A -> A | unit: each sentence of one unit has derivations without end
    let grammar = Grammar::new(vec![
        rule(Loop::S, &[&[Loop::A]]),
        rule(Loop::A, &[&[Loop::A], &[Loop::Unit]]),
    ]);
    let sppf = earley_parser(vec![Loop::Unit], &grammar).unwrap();
    let found = sppf.root.find_ambiguity(&sppf.states).unwrap();
    assert!(found.same_state(&item(Loop::S, &[Loop::A], 0, 1, 1)));
    // the walk through the forest ends although the forest has a cycle
    assert_eq!(sppf.states.len(), 5);
    assert!(sppf.to_tree().edges.len() >= 2);
    assert!(earley_parser(vec![Loop::Unit, Loop::Unit], &grammar).is_none());
}

#[derive(Hash, PartialEq, Eq, Clone, Copy, Debug)]
pub enum Maybe {
    S,
    E,
    X,
}

impl GrammarTrait for Maybe {
    fn start_sym() -> Self {
        Maybe::S
    }

    fn same(&self, other: &Self) -> bool {
        self == other
    }
}

#[test]
fn an_alternative_without_symbols() {
    // S -> E x; E -> (nothing)
    let grammar = Grammar::new(vec![rule(Maybe::S, &[&[Maybe::E, Maybe::X]]), rule(Maybe::E, &[&[]])]);
    let sppf = earley_parser(vec![Maybe::X], &grammar).unwrap();
    assert!(sppf.root.same_state(&item(Maybe::S, &[Maybe::E, Maybe::X], 0, 1, 2)));
    assert!(sppf.root.find_ambiguity(&sppf.states).is_none());
    assert!(earley_parser(Vec::new(), &grammar).is_none());
}

#[test]
fn items_are_shown_by_their_debug_text() {
    let state = item(Symbols::S, &[Symbols::S, Symbols::Plus, Symbols::M], 0, 5, 3);
    assert_eq!(earley_state_repr(&state), "S -> S Plus M *, 0, 5");
    assert_eq!(earley_state_id(&state), "S_S_Plus_M_0_5_3");
}

#[test]
fn sums_of_ones() {
    let one = wasm_decomp::parser::sums::AmbigSymbols::One;
    let plus = wasm_decomp::parser::sums::AmbigSymbols::Plus;
    let grammar = wasm_decomp::parser::sums::ambiguous_grammar();
    assert_eq!(grammar.rules.len(), 1);
    assert_eq!(grammar.rules[0].right_hand.len(), 2);
    let sppf = earley_parser(vec![one, plus, one, plus, one], &grammar).unwrap();
    assert_eq!(sppf.states[0].1.len(), 2);
    assert_eq!(sppf.root.find_ambiguity(&sppf.states), Some(sppf.root.clone()));
    let unambiguous = earley_parser(vec![one, plus, one], &grammar).unwrap();
    assert_eq!(unambiguous.root.find_ambiguity(&unambiguous.states), None);
}

#[test]
fn packed_nodes_of_a_forest_are_steps_over_the_sentence() {
    let sentence = two_plus_three_times_four();
    let sppf = earley_parser(sentence.clone(), &grammar()).unwrap();
    assert!(sppf.states[0].0.same_state(&sppf.root));
    for (state, nodes) in sppf.states.iter() {
        // an item that has matched a symbol has a packed node, and none twice
        assert_eq!(state.idx >= 1, !nodes.is_empty());
        for (a, first) in nodes.iter().enumerate() {
            for second in nodes.iter().skip(a + 1) {
                let same_left = first.left_child.same_derivation(&second.left_child);
                let same_right = match (&first.right_child, &second.right_child) {
                    (Some(x), Some(y)) => x.same_derivation(y),
                    (None, None) => true,
                    _ => false,
                };
                assert!(!(same_left && same_right));
            }
        }
        for node in nodes.iter() {
            let mut children = vec![&node.left_child];
            if let Some(right) = &node.right_child {
                children.push(right);
            }
            for child in children {
                match child {
                    // a symbol that was read is the symbol of the sentence at its place
                    Derivation::ScannedFrom { symbol, idx } => {
                        assert_eq!(*idx, state.end);
                        assert!(sentence[*idx - 1] == *symbol);
                    },
                    // an item that a node stands on is an item of the forest
                    Derivation::CompletedFrom { state: held } => {
                        assert!(sppf.states.iter().any(|(key, _)| key.same_state(held)));
                    },
                }
            }
            // a step over a finished item: the left child ends where the right one starts
            if let (
                Derivation::CompletedFrom { state: left },
                Some(Derivation::CompletedFrom { state: right }),
            ) = (&node.left_child, &node.right_child)
            {
                assert_eq!(left.end, right.origin);
                assert_eq!(right.end, state.end);
                assert_eq!(left.idx + 1, state.idx);
                assert!(right.idx == right.to.len());
                assert!(right.from == state.to[state.idx - 1]);
            }
        }
    }
}

#[test]
fn an_item_has_the_node_of_every_step_that_yields_it() {
    // S -> S + S | 1 on 1 + 1 + 1: the root is yielded by the step that ends its left part
    // at 2 and by the one that ends it at 4
    let sentence = vec![Sum::One, Sum::Plus, Sum::One, Sum::Plus, Sum::One];
    let sppf = earley_parser(sentence, &sum_grammar()).unwrap();
    let nodes = &sppf.states[0].1;
    let mut ends: Vec<usize> = Vec::new();
    for node in nodes.iter() {
        match &node.left_child {
            Derivation::CompletedFrom { state } => ends.push(state.end),
            Derivation::ScannedFrom { .. } => panic!("the root is no step over a symbol"),
        }
    }
    ends.sort();
    assert_eq!(ends, vec![2, 4]);
}

#[test]
fn no_child_hangs_from_two_edges_of_a_tree() {
    let trees = vec![
        earley_parser(two_plus_three_times_four(), &grammar()).unwrap().to_tree().edges,
    ];
    for edges in trees.iter() {
        for (a, first) in edges.iter().enumerate() {
            // an edge comes from an item, and no item that has matched nothing hangs from one
            assert!(matches!(first.0, Derivation::CompletedFrom { .. }));
            assert!(!matches!(&first.1, Derivation::CompletedFrom { state } if state.idx == 0));
            for second in edges.iter().skip(a + 1) {
                assert!(!first.1.same_derivation(&second.1));
            }
        }
    }
    let sum = vec![Sum::One, Sum::Plus, Sum::One, Sum::Plus, Sum::One];
    let edges = earley_parser(sum.clone(), &sum_grammar()).unwrap().to_tree().edges;
    for (a, first) in edges.iter().enumerate() {
        for second in edges.iter().skip(a + 1) {
            assert!(!first.1.same_derivation(&second.1));
        }
    }
    // the symbols that hang from the edges are those of the sentence, each once
    let mut leaves: Vec<(usize, Sum)> = edges
        .iter()
        .filter_map(|(_, to)| match to {
            Derivation::ScannedFrom { symbol, idx } => Some((*idx, *symbol)),
            _ => None,
        })
        .collect();
    leaves.sort_by_key(|leaf| leaf.0);
    let want: Vec<(usize, Sum)> = sum.iter().enumerate().map(|(i, s)| (i + 1, *s)).collect();
    assert_eq!(leaves, want);
}

#[test]
fn an_alternative_without_symbols_that_is_needed_twice() {
    // S -> E E x; E -> (nothing): the second E is predicted when the item of the empty
    // alternative has been followed, so it is never stepped over
    let grammar = Grammar::new(vec![
        rule(Maybe::S, &[&[Maybe::E, Maybe::E, Maybe::X]]),
        rule(Maybe::E, &[&[]]),
    ]);
    assert!(earley_parser(vec![Maybe::X], &grammar).is_none());
}
