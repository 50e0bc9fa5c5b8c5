use wasm_decomp::parser::prs::{
    create_sppf, earley_parser, find_item, find_state, merge_item, walk, Derivation, EarleyState,
    EarleyTree, Grammar, GrammarTrait, PackedNode, Rule, States,
};
use wasm_decomp::parser::show::{
    earley_state_id, earley_state_repr, line_text, node_text, print_earley_states, scanned_text,
    state_id_text, state_repr_text,
};
use wasm_decomp::wasm_model::{ADD_U64_OP, INSTR, START, STMT, STMTS};
use wasm_decomp::wasm_parser::parser_grammar;

#[derive(Hash, PartialEq, Eq, Clone, Copy, Debug)]
pub enum Letter {
    S,
    A,
    B,
}

impl GrammarTrait for Letter {
    fn start_sym() -> Self {
        Letter::S
    }

    fn same(&self, other: &Self) -> bool {
        self == other
    }

    fn to_node_rep(&self, parent_sym: Option<Self>) -> String {
        match parent_sym {
            Some(parent) => format!("{:?}/{:?}", parent, self),
            None => format!("<{:?}>", self),
        }
    }
}

fn item(from: Letter, to: &[Letter], origin: usize, end: usize, idx: usize) -> EarleyState<Letter> {
    EarleyState { from, to: to.to_vec(), origin, end, idx }
}

fn completed(state: &EarleyState<Letter>) -> Derivation<Letter> {
    Derivation::CompletedFrom { state: state.clone() }
}

fn scanned(symbol: Letter, idx: usize) -> Derivation<Letter> {
    Derivation::ScannedFrom { symbol, idx }
}

#[test]
fn items_as_text() {
    let state = item(Letter::S, &[Letter::A, Letter::B], 2, 5, 1);
    assert_eq!(earley_state_id(&state), "<S>_<A>_<B>_2_5_1");
    assert_eq!(earley_state_repr(&state), "<S> -> <A> * <B>, 2, 5");
    assert_eq!(earley_state_repr(&item(Letter::S, &[Letter::A], 0, 0, 0)), "<S> -> * <A>, 0, 0");
    assert_eq!(earley_state_repr(&item(Letter::S, &[Letter::A], 0, 1, 1)), "<S> -> <A> *, 0, 1");
    assert_eq!(earley_state_repr(&item(Letter::S, &[], 3, 3, 0)), "<S> -> *, 3, 3");
    assert_eq!(earley_state_id(&item(Letter::S, &[], 3, 3, 0)), "<S>_3_3_0");
}

#[test]
fn texts_are_put_together() {
    let to = vec!["x".to_string(), "yy".to_string()];
    assert_eq!(state_id_text("s", &to, 10, 200, 2), "s_x_yy_10_200_2");
    assert_eq!(state_repr_text("s", &to, 10, 200, 2), "s -> x yy *, 10, 200");
    assert_eq!(scanned_text("a", 12), "a @ 12");
    assert_eq!(node_text("left", Some("right")), "left || right");
    assert_eq!(node_text("left", None), "left");
    assert_eq!(line_text(3, "item", &Vec::new()), "3:\titem");
    assert_eq!(line_text(3, "item", &vec!["n".to_string()]), "3:\titem\t packed_nodes: n");
    assert_eq!(
        line_text(0, "item", &vec!["n".to_string(), "m".to_string(), "o".to_string()]),
        "0:\titem\t packed_nodes: n -- m -- o"
    );
}

#[test]
fn a_set_of_items_as_lines() {
    let first = item(Letter::S, &[Letter::A, Letter::B], 0, 1, 1);
    let second = item(Letter::S, &[Letter::A, Letter::B], 0, 2, 2);
    let states: States<Letter> = vec![
        (first.clone(), vec![PackedNode { left_child: scanned(Letter::A, 1), right_child: None }]),
        (
            second,
            vec![
                PackedNode {
                    left_child: completed(&first),
                    right_child: Some(scanned(Letter::B, 2)),
                },
                PackedNode {
                    left_child: completed(&first),
                    right_child: Some(completed(&first)),
                },
            ],
        ),
        (item(Letter::A, &[], 0, 0, 0), Vec::new()),
    ];
    let grammar = Grammar::new(Vec::new());
    let lines = print_earley_states(&states, &grammar, 2);
    assert_eq!(
        lines,
        vec![
            "0:\t<S> -> <A> * <B>, 0, 1\t packed_nodes: <A> @ 1".to_string(),
            "1:\t<S> -> <A> <B> *, 0, 2\t packed_nodes: <S> -> <A> * <B>, 0, 1 ||  & \"<B>\" @ 2 \
             -- <S> -> <A> * <B>, 0, 1 || <S> -> <A> * <B>, 0, 1"
                .to_string(),
            "2:\t<A> -> *, 0, 0".to_string(),
        ]
    );
}

#[test]
fn nodes_of_a_tree() {
    let root = item(Letter::S, &[Letter::A, Letter::B], 0, 2, 2);
    let left = item(Letter::S, &[Letter::A, Letter::B], 0, 1, 1);
    let tree = EarleyTree {
        edges: vec![
            (completed(&root), completed(&left)),
            (completed(&root), scanned(Letter::B, 2)),
            (completed(&left), scanned(Letter::A, 1)),
        ],
        root: completed(&root),
    };
    let nodes = tree.nodes();
    assert_eq!(nodes.len(), 4);
    assert!(nodes[0].same_derivation(&completed(&root)));
    assert!(nodes[1].same_derivation(&completed(&left)));
    assert!(nodes[2].same_derivation(&scanned(Letter::B, 2)));
    assert!(nodes[3].same_derivation(&scanned(Letter::A, 1)));
    assert!(!nodes[2].same_derivation(&scanned(Letter::B, 1)));

    assert_eq!(nodes[0].node_id(), "N<S>_<A>_<B>_0_2_2");
    assert_eq!(nodes[2].node_id(), "N<B>_2");
    assert_eq!(tree.node_label(&nodes[0]).unwrap(), "<S> -> <A> <B> *, 0, 2");
    // a symbol is shown under the symbol of the item that it hangs from
    assert_eq!(tree.node_label(&nodes[2]).unwrap(), "S/B, 2");
    assert_eq!(tree.node_label(&scanned(Letter::A, 9)).unwrap(), "<A>, 9");
    assert_eq!(tree.parent_symbol(&nodes[3]), Some(Letter::S));
    assert_eq!(tree.parent_symbol(&nodes[0]), None);
    let beyond = completed(&item(Letter::S, &[Letter::A], 0, 0, 2));
    assert!(tree.node_label(&beyond).is_none());
}

#[test]
fn sets_of_items() {
    let one = item(Letter::S, &[Letter::A], 0, 1, 1);
    let two = item(Letter::S, &[Letter::B], 0, 1, 1);
    let node = |idx: usize| PackedNode { left_child: scanned(Letter::A, idx), right_child: None };
    let mut set: States<Letter> = Vec::new();
    assert!(merge_item(&mut set, one.clone(), vec![node(1)]));
    assert!(merge_item(&mut set, two.clone(), Vec::new()));
    // the packed node of an item that is there comes behind those it has
    assert!(!merge_item(&mut set, one.clone(), vec![node(2)]));
    assert_eq!(set.len(), 2);
    assert_eq!(set[0].1.len(), 2);
    assert!(set[0].1[0].left_child.same_derivation(&scanned(Letter::A, 1)));
    assert!(set[0].1[1].left_child.same_derivation(&scanned(Letter::A, 2)));
    assert_eq!(find_item(&set, &two), Some(1));
    assert_eq!(find_item(&set, &item(Letter::S, &[Letter::B], 0, 2, 1)), None);

    let chart = vec![Vec::new(), set];
    assert_eq!(find_state(&one, &chart).unwrap().len(), 2);
    assert!(find_state(&item(Letter::A, &[], 0, 0, 0), &chart).is_none());
}

#[test]
fn forest_of_an_item_of_a_chart() {
    let leaf = item(Letter::A, &[Letter::B], 0, 1, 1);
    let root = item(Letter::S, &[Letter::A], 0, 1, 1);
    let stray = item(Letter::B, &[Letter::B], 0, 1, 1);
    let lost = item(Letter::B, &[], 1, 1, 0);
    let chart: Vec<States<Letter>> = vec![
        Vec::new(),
        vec![
            (stray, Vec::new()),
            (leaf.clone(), vec![PackedNode { left_child: scanned(Letter::B, 1), right_child: None }]),
            (
                root.clone(),
                vec![PackedNode {
                    left_child: completed(&lost),
                    right_child: Some(completed(&leaf)),
                }],
            ),
        ],
    ];
    let sppf = create_sppf(&root, &chart);
    assert!(sppf.root.same_state(&root));
    // the root, then what it reaches; not the item that nothing leads to, nor the one
    // that the chart does not hold
    assert_eq!(sppf.states.len(), 2);
    assert!(sppf.states[0].0.same_state(&root));
    assert!(sppf.states[1].0.same_state(&leaf));
    assert_eq!(walk(&chart[1], &root, true, false), vec![2, 1]);
    assert_eq!(walk(&chart[1], &lost, true, false), Vec::<usize>::new());
    assert!(create_sppf(&lost, &chart).states.is_empty());

    let tree = sppf.to_tree();
    assert_eq!(tree.edges.len(), 2);
    assert!(tree.edges[0].1.same_derivation(&completed(&leaf)));
    assert!(tree.edges[1].1.same_derivation(&scanned(Letter::B, 1)));
}

#[test]
fn grammar_of_function_bodies() {
    let grammar = parser_grammar();
    assert_eq!(grammar.rules.len(), 4);
    assert_eq!(grammar.rules[0].left_hand, START);
    assert_eq!(grammar.rules[0].right_hand, vec![vec![STMTS]]);
    assert_eq!(grammar.rules[1].right_hand, vec![vec![STMT], vec![STMTS, STMT]]);
    assert_eq!(grammar.rules[2].right_hand, vec![vec![ADD_U64_OP], vec![INSTR]]);
    assert_eq!(grammar.rules[3].left_hand, INSTR);
    assert_eq!(grammar.rules[3].right_hand.len(), 180);
    assert_eq!(grammar.rules[3].right_hand[0], vec![0x00]);
    assert_eq!(grammar.rules[3].right_hand[6], vec![0x0B]);
    assert_eq!(grammar.rules[3].right_hand[179], vec![0xD2]);
    assert_eq!(u64::start_sym(), START);
    assert!(grammar.is_nonterm(&STMT));
    assert!(!grammar.is_nonterm(&0x41));
    assert_eq!(grammar.get_rules(STMTS).len(), 1);
    assert!(grammar.get_rules(7).is_empty());

    // a body of opcodes without immediates is a run of statements
    let sppf = earley_parser(vec![0x01, 0x45, 0x1A, 0x0B], &grammar).unwrap();
    assert!(sppf.root.find_ambiguity(&sppf.states).is_none());
    assert_eq!(sppf.to_tree().edges.iter().filter(|edge| matches!(edge.1, Derivation::ScannedFrom { .. })).count(), 4);
    // 0x06 is no opcode of the catalogue
    assert!(earley_parser(vec![0x01, 0x06], &grammar).is_none());
    assert!(earley_parser(Vec::new(), &grammar).is_none());
}

#[test]
fn rules_are_copied() {
    let rule = Rule { left_hand: Letter::S, right_hand: vec![vec![Letter::A], Vec::new()] };
    let copy = rule.duplicate();
    assert_eq!(copy.left_hand, Letter::S);
    assert_eq!(copy.right_hand, vec![vec![Letter::A], Vec::new()]);
}
