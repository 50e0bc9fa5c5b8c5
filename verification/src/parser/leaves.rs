//! The derivation that the first packed nodes of a forest give: the
//! symbols that it reads under an item, from left to right, are the symbols
//! of the sentence from the origin of the item to its end.

use crate::parser::forest::{
    lemma_walk, spec_followed_upto, spec_forest_ok, spec_in_forest, spec_is_path,
    spec_node_below, spec_ranked, spec_reaches,
};
use crate::parser::prs::{
    forest_yield, lemma_find, spec_before, spec_completes_to, spec_edges, spec_entry_ok,
    spec_find, spec_is_nonterm, spec_item_edges, spec_item_holds, spec_node_targets,
    spec_nodes_targets, spec_order, spec_place_targets, spec_places, spec_scan_step,
    spec_scanned_node, spec_step, spec_target, spec_witness, tree_root, tree_valid, tree_yield,
    DerivationModel, EdgeModel, EntryModel, ParseTree, RuleModel, StateModel,
};
use vstd::prelude::*;

verus! {

/// The symbols of the sentence `w` from `from` to `to`, each with the
/// position at which it ends.
pub open spec fn spec_span<T>(w: Seq<T>, from: nat, to: nat) -> Seq<(T, nat)> {
    Seq::new((to - from) as nat, |k: int| (w[from + k], (from + k + 1) as nat))
}

/// The symbols that were read under the item `s` of the forest `f`, from
/// left to right, each with the position at which it ends, where each item
/// is taken apart by its first packed node, `fuel` items deep at most.
pub open spec fn spec_leaves<T>(f: Seq<EntryModel<T>>, s: StateModel<T>, fuel: nat) -> Seq<
    (T, nat),
>
    decreases fuel,
{
    if fuel == 0 {
        Seq::empty()
    } else {
        match spec_find(f, s) {
            None => Seq::empty(),
            Some(i) => if f[i].1.len() == 0 {
                Seq::empty()
            } else {
                (match f[i].1[0].left_child {
                    DerivationModel::ScannedFrom { symbol, idx } => seq![(symbol, idx)],
                    DerivationModel::CompletedFrom { state } => spec_leaves(
                        f,
                        state,
                        (fuel - 1) as nat,
                    ),
                }) + (match f[i].1[0].right_child {
                    Some(DerivationModel::ScannedFrom { symbol, idx }) => seq![(symbol, idx)],
                    Some(DerivationModel::CompletedFrom { state }) => spec_leaves(
                        f,
                        state,
                        (fuel - 1) as nat,
                    ),
                    None => Seq::empty(),
                })
            },
        }
    }
}

/// An item that holds and has matched one symbol, which no rule rewrites,
/// spans that symbol alone.
pub proof fn lemma_single_leaf<T>(g: Seq<RuleModel<T>>, w: Seq<T>, s: StateModel<T>)
    requires
        spec_item_holds(g, w, s),
        s.idx == 1,
        !spec_is_nonterm(g, s.to[0]),
    ensures
        s.end == s.origin + 1,
{
    let trees = choose|trees: Seq<ParseTree<T>>| spec_witness(g, w, s, trees);
    assert(trees.drop_last().len() == 0);
    assert(forest_yield(trees) == forest_yield(trees.drop_last()) + tree_yield(trees.last()));
    assert(forest_yield(trees.drop_last()).len() == 0);
    assert(tree_root(trees[0]) == s.to[0]);
    assert(tree_valid(g, trees[0]));
    match trees[0] {
        ParseTree::Leaf(symbol) => {},
        ParseTree::Node(symbol, children) => {
            assert(spec_is_nonterm(g, symbol));
        },
    }
    assert(tree_yield(trees[0]).len() == 1);
}

/// An item that holds and has matched nothing spans nothing.
pub proof fn lemma_no_leaf<T>(g: Seq<RuleModel<T>>, w: Seq<T>, s: StateModel<T>)
    requires
        spec_item_holds(g, w, s),
        s.idx == 0,
    ensures
        s.end == s.origin,
{
    let trees = choose|trees: Seq<ParseTree<T>>| spec_witness(g, w, s, trees);
    assert(forest_yield(trees).len() == 0);
}

/// Under an item of the forest of a sentence, the first packed nodes read
/// the symbols of the sentence from the origin of the item to its end,
/// where they are followed deeper than the rank of the item.
pub proof fn lemma_leaves<T>(
    g: Seq<RuleModel<T>>,
    w: Seq<T>,
    f: Seq<EntryModel<T>>,
    root: StateModel<T>,
    rank: spec_fn(StateModel<T>) -> nat,
    s: StateModel<T>,
    fuel: nat,
)
    requires
        spec_forest_ok(g, w, f, root),
        spec_ranked(f, rank),
        spec_find(f, s) is Some,
        fuel > rank(s),
    ensures
        spec_leaves(f, s, fuel) == spec_span(w, s.origin, s.end),
    decreases fuel,
{
    lemma_find(f, s);
    let i = spec_find(f, s)->Some_0;
    assert(spec_item_holds(g, w, f[i].0));
    assert(spec_entry_ok(g, w, f[i]));
    if f[i].1.len() == 0 {
        lemma_no_leaf(g, w, s);
        assert(spec_leaves(f, s, fuel) =~= spec_span(w, s.origin, s.end));
    } else {
        let node = f[i].1[0];
        assert(spec_step(g, w, s, f[i].1[0]));
        assert(spec_node_below(rank, f[i].1[0], rank(f[i].0)));
        assert(spec_in_forest(f, f[i].1[0].left_child));
        assert(f[i].1[0].right_child matches Some(d) ==> spec_in_forest(f, d));
        let rest = (fuel - 1) as nat;
        if spec_scan_step(g, w, s, node) {
            let p = spec_before(s, (s.end - 1) as nat);
            let last = seq![(w[s.end - 1], s.end)];
            assert(node == spec_scanned_node(p, w[s.end - 1], s.end));
            if p.idx == 0 {
                lemma_single_leaf(g, w, s);
                assert(spec_leaves(f, s, fuel) =~= last + Seq::<(T, nat)>::empty());
                assert(last + Seq::<(T, nat)>::empty() =~= spec_span(w, s.origin, s.end));
            } else {
                lemma_find(f, p);
                let at = spec_find(f, p)->Some_0;
                assert(spec_item_holds(g, w, f[at].0));
                lemma_leaves(g, w, f, root, rank, p, rest);
                assert(spec_leaves(f, s, fuel) == spec_leaves(f, p, rest) + last);
                assert(spec_span(w, p.origin, p.end) + last =~= spec_span(w, s.origin, s.end));
            }
        } else {
            match node.left_child {
                DerivationModel::CompletedFrom { state: p } => match node.right_child {
                    Some(DerivationModel::CompletedFrom { state: d }) => {
                        assert(spec_completes_to(s, p, d));
                        lemma_find(f, p);
                        lemma_find(f, d);
                        let at = spec_find(f, p)->Some_0;
                        let to = spec_find(f, d)->Some_0;
                        assert(spec_item_holds(g, w, f[at].0));
                        assert(spec_item_holds(g, w, f[to].0));
                        lemma_leaves(g, w, f, root, rank, p, rest);
                        lemma_leaves(g, w, f, root, rank, d, rest);
                        assert(spec_leaves(f, s, fuel) == spec_leaves(f, p, rest) + spec_leaves(
                            f,
                            d,
                            rest,
                        ));
                        assert(spec_span(w, p.origin, p.end) + spec_span(w, d.origin, d.end)
                            =~= spec_span(w, s.origin, s.end));
                    },
                    _ => {},
                },
                _ => {},
            }
        }
    }
}

/// In the forest of a sentence, the derivation that the first packed nodes
/// give under an item reads, from left to right, the symbols of the
/// sentence from the origin of the item to its end.
pub proof fn lemma_first_derivation<T>(
    g: Seq<RuleModel<T>>,
    w: Seq<T>,
    f: Seq<EntryModel<T>>,
    root: StateModel<T>,
    s: StateModel<T>,
)
    requires
        spec_forest_ok(g, w, f, root),
        spec_find(f, s) is Some,
    ensures
        exists|fuel: nat| #[trigger] spec_leaves(f, s, fuel) == spec_span(w, s.origin, s.end),
{
    let rank = choose|rank: spec_fn(StateModel<T>) -> nat| #[trigger] spec_ranked(f, rank);
    let fuel = rank(s) + 1;
    lemma_leaves(g, w, f, root, rank, s, fuel);
}

/// The edges from an item that a walk meets are edges of the tree.
proof fn lemma_edges_hold<T>(f: Seq<EntryModel<T>>, order: Seq<int>, upto: nat, x: int, z: int)
    requires
        0 <= x < upto <= order.len(),
        0 <= z < spec_item_edges(f[order[x]]).len(),
    ensures
        spec_edges(f, order, upto).contains(spec_item_edges(f[order[x]])[z]),
    decreases upto,
{
    let before = spec_edges(f, order, (upto - 1) as nat);
    let here = spec_item_edges(f[order[upto - 1]]);
    let whole = spec_edges(f, order, upto);
    assert(whole == before + here);
    if x == upto - 1 {
        assert(whole[before.len() + z] == here[z]);
    } else {
        lemma_edges_hold(f, order, (upto - 1) as nat, x, z);
        let k = choose|k: int| 0 <= k < before.len() && before[k] == spec_item_edges(
            f[order[x]],
        )[z];
        assert(whole[k] == before[k]);
    }
}

/// A walk over the first packed nodes follows, from an item with packed
/// nodes, the item of the left child of the first node, unless it has
/// matched nothing, and the item of its right child.
pub proof fn lemma_first_targets<T>(f: Seq<EntryModel<T>>, i: int)
    requires
        0 <= i < f.len(),
        f[i].1.len() > 0,
    ensures
        spec_place_targets(f, i, false, true) == spec_target(f, f[i].1[0].left_child, true) + (
        match f[i].1[0].right_child {
            Some(d) => spec_target(f, d, false),
            None => Seq::<int>::empty(),
        }),
{
    reveal_with_fuel(spec_nodes_targets, 3);
    let nodes = f[i].1;
    assert(spec_nodes_targets(f, nodes, 0, true) =~= Seq::<int>::empty());
    assert(spec_nodes_targets(f, nodes, 1, true) =~= spec_node_targets(f, nodes[0], true));
}

/// A symbol that the first packed nodes read under an item that the walk
/// of the tree meets is the child of an edge of the tree.
proof fn lemma_leaf_is_edge<T>(
    g: Seq<RuleModel<T>>,
    w: Seq<T>,
    f: Seq<EntryModel<T>>,
    root: StateModel<T>,
    order: Seq<int>,
    s: StateModel<T>,
    fuel: nat,
    leaf: (T, nat),
)
    requires
        spec_forest_ok(g, w, f, root),
        spec_places(order, f.len()),
        spec_followed_upto(f, order, order.len() as int, false, true),
        spec_find(f, s) matches Some(i) && order.contains(i),
        spec_leaves(f, s, fuel).contains(leaf),
    ensures
        exists|k: int|
            0 <= k < spec_edges(f, order, order.len()).len() && (#[trigger] spec_edges(
                f,
                order,
                order.len(),
            )[k]).1 == (DerivationModel::ScannedFrom { symbol: leaf.0, idx: leaf.1 }),
    decreases fuel,
{
    let edges = spec_edges(f, order, order.len());
    lemma_find(f, s);
    let i = spec_find(f, s)->Some_0;
    let x = choose|x: int| 0 <= x < order.len() && order[x] == i;
    let all = spec_leaves(f, s, fuel);
    let at = choose|at: int| 0 <= at < all.len() && all[at] == leaf;
    assert(fuel > 0);
    assert(f[i].1.len() > 0);
    let rest = (fuel - 1) as nat;
    let node = f[i].1[0];
    let parent = DerivationModel::CompletedFrom { state: f[i].0 };
    let left = match node.left_child {
        DerivationModel::ScannedFrom { symbol, idx } => seq![(symbol, idx)],
        DerivationModel::CompletedFrom { state } => spec_leaves(f, state, rest),
    };
    let right = match node.right_child {
        Some(DerivationModel::ScannedFrom { symbol, idx }) => seq![(symbol, idx)],
        Some(DerivationModel::CompletedFrom { state }) => spec_leaves(f, state, rest),
        None => Seq::<(T, nat)>::empty(),
    };
    assert(all == left + right);
    let left_edges = match node.left_child {
        DerivationModel::CompletedFrom { state } => if state.idx == 0 {
            Seq::<EdgeModel<T>>::empty()
        } else {
            seq![(parent, node.left_child)]
        },
        DerivationModel::ScannedFrom { symbol, idx } => seq![(parent, node.left_child)],
    };
    let right_edges = match node.right_child {
        Some(d) => seq![(parent, d)],
        None => Seq::<EdgeModel<T>>::empty(),
    };
    assert(spec_item_edges(f[i]) == left_edges + right_edges);
    lemma_first_targets(f, i);
    let targets = spec_place_targets(f, i, false, true);
    if at < left.len() {
        assert(left[at] == leaf);
        match node.left_child {
            DerivationModel::ScannedFrom { symbol, idx } => {
                assert((left_edges + right_edges)[0] == (parent, node.left_child));
                lemma_edges_hold(f, order, order.len(), x, 0);
                let k = choose|k: int|
                    0 <= k < edges.len() && edges[k] == spec_item_edges(f[order[x]])[0];
                assert(edges[k].1 == (DerivationModel::ScannedFrom {
                    symbol: leaf.0,
                    idx: leaf.1,
                }));
            },
            DerivationModel::CompletedFrom { state: p } => {
                assert(spec_leaves(f, p, rest).contains(leaf));
                assert(rest > 0);
                lemma_find(f, p);
                let ip = spec_find(f, p)->Some_0;
                assert(f[ip].1.len() > 0);
                assert(spec_entry_ok(g, w, f[ip]));
                assert(spec_step(g, w, f[ip].0, f[ip].1[0]));
                assert(p.idx >= 1);
                assert(spec_target(f, node.left_child, true) == seq![ip]);
                assert(targets[0] == ip);
                assert(order.contains(spec_place_targets(f, order[x], false, true)[0]));
                lemma_leaf_is_edge(g, w, f, root, order, p, rest, leaf);
            },
        }
    } else {
        assert(right[at - left.len()] == leaf);
        let skip = spec_target(f, node.left_child, true).len();
        match node.right_child {
            Some(DerivationModel::ScannedFrom { symbol, idx }) => {
                let z = left_edges.len() as int;
                assert((left_edges + right_edges)[z] == (parent, node.right_child->Some_0));
                lemma_edges_hold(f, order, order.len(), x, z);
                let k = choose|k: int|
                    0 <= k < edges.len() && edges[k] == spec_item_edges(f[order[x]])[z];
                assert(edges[k].1 == (DerivationModel::ScannedFrom {
                    symbol: leaf.0,
                    idx: leaf.1,
                }));
            },
            Some(DerivationModel::CompletedFrom { state: d }) => {
                assert(spec_leaves(f, d, rest).contains(leaf));
                assert(rest > 0);
                lemma_find(f, d);
                let id = spec_find(f, d)->Some_0;
                assert(spec_target(f, node.right_child->Some_0, false) == seq![id]);
                assert(targets[skip as int] == id);
                assert(order.contains(spec_place_targets(f, order[x], false, true)[skip as int]));
                lemma_leaf_is_edge(g, w, f, root, order, d, rest, leaf);
            },
            None => {},
        }
    }
}

/// The tree of the forest of a sentence reads the sentence: each symbol
/// from the origin of the root to its end is, with its position, the child
/// of an edge of the tree.
pub proof fn lemma_tree_reads_sentence<T>(
    g: Seq<RuleModel<T>>,
    w: Seq<T>,
    f: Seq<EntryModel<T>>,
    root: StateModel<T>,
    pos: nat,
)
    requires
        spec_forest_ok(g, w, f, root),
        root.origin < pos <= root.end,
    ensures
        ({
            let order = spec_order(f, root, false, true);
            let edges = spec_edges(f, order, order.len());
            exists|k: int|
                0 <= k < edges.len() && (#[trigger] edges[k]).1 == (DerivationModel::ScannedFrom {
                    symbol: w[pos - 1],
                    idx: pos,
                })
        }),
{
    let order = spec_order(f, root, false, true);
    lemma_find(f, root);
    let r = spec_find(f, root)->Some_0;
    let first = seq![r];
    assert(spec_is_path(f, first, false, true));
    assert(first[0] == r && first.last() == r);
    assert(spec_reaches(f, r, r, false, true));
    lemma_walk(f, first, 0, false, true, r);
    assert(order[0] == r);
    lemma_first_derivation(g, w, f, root, root);
    let fuel = choose|fuel: nat| #[trigger]
        spec_leaves(f, root, fuel) == spec_span(w, root.origin, root.end);
    let leaf = (w[pos - 1], pos);
    assert(spec_span(w, root.origin, root.end)[pos - 1 - root.origin] == leaf);
    assert(spec_leaves(f, root, fuel).contains(leaf));
    lemma_leaf_is_edge(g, w, f, root, order, root, fuel, leaf);
}

} // verus!
