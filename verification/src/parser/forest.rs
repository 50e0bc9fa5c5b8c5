//! What holds of a walk through a forest: it meets exactly what can be
//! reached, and so the search for an ambiguity finds one wherever there
//! is one. What holds of the forest of a sentence: which items and packed
//! nodes it has, and where the edges of its tree lead.

use crate::parser::complete::{
    lemma_step_in_chart, spec_plain, spec_valid_completion, spec_valid_step,
};
use crate::parser::prs::{
    forest_yield, lemma_add_all_places, lemma_find, lemma_fresh_item_holds,
    lemma_nodes_targets_places, lemma_places_len, spec_add_all, spec_ambiguity, spec_before,
    spec_chart_closed, spec_chart_ok, spec_distinct, spec_done, spec_first_precede,
    spec_node_precedes, spec_edges, spec_entry_ok, spec_find,
    spec_first_ambiguous, spec_flat, spec_followed, spec_is_nonterm, spec_item_edges,
    spec_item_holds, spec_node_targets, spec_nodes_targets, spec_order, spec_pick,
    spec_place_targets, spec_places, spec_present, spec_saturated_upto, spec_scan_step, spec_step,
    spec_target, spec_walk, spec_witness, tree_yield, DerivationModel, EdgeModel, EntryModel,
    PackedModel, ParseTree, RuleModel, StateModel,
};
use vstd::prelude::*;

verus! {

/// Whether `path` leads through `states`: each of its places but the
/// first is one that a walk follows from the place before.
pub open spec fn spec_is_path<T>(
    states: Seq<EntryModel<T>>,
    path: Seq<int>,
    all: bool,
    elide: bool,
) -> bool {
    &&& path.len() >= 1
    &&& forall|k: int| 0 <= k < path.len() ==> 0 <= #[trigger] path[k] < states.len()
    &&& forall|k: int|
        0 <= k < path.len() - 1 ==> spec_place_targets(
            states,
            #[trigger] path[k],
            all,
            elide,
        ).contains(path[k + 1])
}

/// Whether the item at the place `to` can be reached from the one at
/// `from`, over all packed nodes of each item or over the first alone.
pub open spec fn spec_reaches<T>(
    states: Seq<EntryModel<T>>,
    from: int,
    to: int,
    all: bool,
    elide: bool,
) -> bool {
    exists|path: Seq<int>|
        spec_is_path(states, path, all, elide) && path[0] == from && #[trigger] path.last() == to
}

proof fn lemma_add_all_holds(seen: Seq<int>, places: Seq<int>)
    ensures
        seen.len() <= spec_add_all(seen, places).len(),
        forall|x: int| 0 <= x < seen.len() ==> spec_add_all(seen, places)[x] == seen[x],
        forall|y: int|
            0 <= y < places.len() ==> spec_add_all(seen, places).contains(#[trigger] places[y]),
        forall|x: int|
            0 <= x < spec_add_all(seen, places).len() ==> seen.contains(
                #[trigger] spec_add_all(seen, places)[x],
            ) || places.contains(spec_add_all(seen, places)[x]),
    decreases places.len(),
{
    let after = spec_add_all(seen, places);
    if places.len() > 0 {
        let front = places.drop_last();
        let before = spec_add_all(seen, front);
        lemma_add_all_holds(seen, front);
        assert forall|y: int| 0 <= y < places.len() implies after.contains(
            #[trigger] places[y],
        ) by {
            if y < places.len() - 1 {
                assert(front[y] == places[y]);
                let x = choose|x: int| 0 <= x < before.len() && before[x] == front[y];
                assert(after[x] == places[y]);
            } else if before.contains(places.last()) {
            } else {
                assert(after[before.len() as int] == places[y]);
            }
        }
        assert forall|x: int| 0 <= x < after.len() implies seen.contains(#[trigger] after[x])
            || places.contains(after[x]) by {
            if x < before.len() {
                assert(after[x] == before[x]);
                if !seen.contains(before[x]) {
                    let y = choose|y: int| 0 <= y < front.len() && front[y] == before[x];
                    assert(places[y] == before[x]);
                }
            } else {
                assert(after[x] == places[places.len() - 1]);
            }
        }
    } else {
        assert forall|x: int| 0 <= x < after.len() implies seen.contains(#[trigger] after[x])
            || places.contains(after[x]) by {
            assert(seen[x] == after[x]);
        }
    }
}

/// Whether the walk that has visited `seen` has met all that it follows
/// from the first `cursor` of them.
pub open spec fn spec_followed_upto<T>(
    states: Seq<EntryModel<T>>,
    seen: Seq<int>,
    cursor: int,
    all: bool,
    elide: bool,
) -> bool {
    forall|x: int, y: int|
        0 <= x < cursor && x < seen.len() && 0 <= y < spec_place_targets(
            states,
            seen[x],
            all,
            elide,
        ).len() ==> seen.contains(
            #[trigger] spec_place_targets(states, #[trigger] seen[x], all, elide)[y],
        )
}

proof fn lemma_path_longer<T>(
    states: Seq<EntryModel<T>>,
    origin: int,
    via: int,
    to: int,
    all: bool,
    elide: bool,
)
    requires
        spec_reaches(states, origin, via, all, elide),
        spec_place_targets(states, via, all, elide).contains(to),
        0 <= to < states.len(),
    ensures
        spec_reaches(states, origin, to, all, elide),
{
    let path = choose|path: Seq<int>|
        spec_is_path(states, path, all, elide) && path[0] == origin && #[trigger] path.last()
            == via;
    let longer = path.push(to);
    assert forall|k: int| 0 <= k < longer.len() - 1 implies spec_place_targets(
        states,
        #[trigger] longer[k],
        all,
        elide,
    ).contains(longer[k + 1]) by {
        if k < path.len() - 1 {
            assert(longer[k] == path[k]);
            assert(longer[k + 1] == path[k + 1]);
        }
    }
    assert(spec_is_path(states, longer, all, elide));
    assert(longer[0] == origin && longer.last() == to);
}

/// What holds of a walk: it visits what it has visited before, in the
/// same places; it has met all that it follows from any item it visits;
/// and it visits nothing that cannot be reached.
pub proof fn lemma_walk<T>(
    states: Seq<EntryModel<T>>,
    seen: Seq<int>,
    cursor: nat,
    all: bool,
    elide: bool,
    origin: int,
)
    requires
        spec_places(seen, states.len()),
        cursor <= seen.len(),
        spec_followed_upto(states, seen, cursor as int, all, elide),
        forall|x: int|
            0 <= x < seen.len() ==> spec_reaches(states, origin, #[trigger] seen[x], all, elide),
    ensures
        ({
            let w = spec_walk(states, seen, cursor, all, elide);
            &&& spec_places(w, states.len())
            &&& seen.len() <= w.len()
            &&& forall|x: int| 0 <= x < seen.len() ==> w[x] == seen[x]
            &&& spec_followed_upto(states, w, w.len() as int, all, elide)
            &&& forall|x: int|
                0 <= x < w.len() ==> spec_reaches(states, origin, #[trigger] w[x], all, elide)
        }),
    decreases states.len() - cursor,
{
    lemma_places_len(seen, states.len());
    if cursor >= seen.len() {
    } else {
        let i = seen[cursor as int];
        let targets = spec_place_targets(states, i, all, elide);
        let next = spec_add_all(seen, targets);
        lemma_nodes_targets_places(
            states,
            states[i].1,
            spec_followed(states[i].1.len(), all),
            elide,
        );
        lemma_add_all_places(seen, targets, states.len());
        lemma_add_all_holds(seen, targets);
        assert forall|x: int, y: int|
            0 <= x < cursor + 1 && x < next.len() && 0 <= y < spec_place_targets(
                states,
                next[x],
                all,
                elide,
            ).len() implies next.contains(
            #[trigger] spec_place_targets(states, #[trigger] next[x], all, elide)[y],
        ) by {
            assert(next[x] == seen[x]);
            let p = spec_place_targets(states, seen[x], all, elide)[y];
            if x < cursor {
                assert(seen.contains(p));
                let z = choose|z: int| 0 <= z < seen.len() && seen[z] == p;
                assert(next[z] == p);
            } else {
                assert(targets[y] == p);
            }
        }
        assert forall|x: int| 0 <= x < next.len() implies spec_reaches(
            states,
            origin,
            #[trigger] next[x],
            all,
            elide,
        ) by {
            if seen.contains(next[x]) {
                let z = choose|z: int| 0 <= z < seen.len() && seen[z] == next[x];
                assert(spec_reaches(states, origin, seen[z], all, elide));
            } else {
                assert(targets.contains(next[x]));
                lemma_path_longer(states, origin, i, next[x], all, elide);
            }
        }
        lemma_walk(states, next, cursor + 1, all, elide, origin);
        let w = spec_walk(states, next, cursor + 1, all, elide);
        assert forall|x: int| 0 <= x < seen.len() implies w[x] == seen[x] by {
            assert(next[x] == seen[x]);
        }
    }
}

proof fn lemma_targets_grow<T>(
    states: Seq<EntryModel<T>>,
    nodes: Seq<PackedModel<T>>,
    a: nat,
    b: nat,
    elide: bool,
)
    requires
        a <= b <= nodes.len(),
    ensures
        forall|y: int|
            0 <= y < spec_nodes_targets(states, nodes, a, elide).len() ==> spec_nodes_targets(
                states,
                nodes,
                b,
                elide,
            ).contains(#[trigger] spec_nodes_targets(states, nodes, a, elide)[y]),
    decreases b - a,
{
    let low = spec_nodes_targets(states, nodes, a, elide);
    let high = spec_nodes_targets(states, nodes, b, elide);
    if a == b {
        assert forall|y: int| 0 <= y < low.len() implies high.contains(#[trigger] low[y]) by {
            assert(high[y] == low[y]);
        }
    } else {
        lemma_targets_grow(states, nodes, a, (b - 1) as nat, elide);
        let middle = spec_nodes_targets(states, nodes, (b - 1) as nat, elide);
        assert forall|y: int| 0 <= y < low.len() implies high.contains(#[trigger] low[y]) by {
            let z = choose|z: int| 0 <= z < middle.len() && middle[z] == low[y];
            assert(high[z] == middle[z]);
        }
    }
}

/// What a walk follows over the first packed node it follows over all.
proof fn lemma_first_among_all<T>(states: Seq<EntryModel<T>>, i: int)
    ensures
        forall|y: int|
            0 <= y < spec_place_targets(states, i, false, false).len() ==> spec_place_targets(
                states,
                i,
                true,
                false,
            ).contains(#[trigger] spec_place_targets(states, i, false, false)[y]),
{
    let nodes = states[i].1;
    lemma_targets_grow(states, nodes, spec_followed(nodes.len(), false), nodes.len(), false);
}

proof fn lemma_path_over_all<T>(states: Seq<EntryModel<T>>, path: Seq<int>)
    requires
        spec_is_path(states, path, false, false),
    ensures
        spec_is_path(states, path, true, false),
{
    assert forall|k: int| 0 <= k < path.len() - 1 implies spec_place_targets(
        states,
        #[trigger] path[k],
        true,
        false,
    ).contains(path[k + 1]) by {
        lemma_first_among_all(states, path[k]);
        let t = spec_place_targets(states, path[k], false, false);
        let y = choose|y: int| 0 <= y < t.len() && t[y] == path[k + 1];
        assert(t[y] == path[k + 1]);
    }
}

proof fn lemma_first_ambiguous<T>(states: Seq<EntryModel<T>>, order: Seq<int>, from: nat)
    ensures
        match spec_first_ambiguous(states, order, from) {
            Some(s) => exists|x: int|
                from <= x < order.len() && (#[trigger] states[order[x]]).1.len() > 1
                    && states[order[x]].0 == s,
            None => forall|x: int|
                from <= x < order.len() ==> (#[trigger] states[order[x]]).1.len() <= 1,
        },
    decreases order.len() - from,
{
    if from < order.len() {
        if states[order[from as int]].1.len() > 1 {
        } else {
            lemma_first_ambiguous(states, order, from + 1);
        }
    }
}

proof fn lemma_path_in_walk<T>(states: Seq<EntryModel<T>>, w: Seq<int>, path: Seq<int>, m: int)
    requires
        spec_followed_upto(states, w, w.len() as int, false, false),
        spec_is_path(states, path, true, false),
        w.contains(path[0]),
        0 <= m < path.len(),
        forall|k: int| 0 <= k < m ==> (#[trigger] states[path[k]]).1.len() <= 1,
    ensures
        w.contains(path[m]),
    decreases m,
{
    if m > 0 {
        lemma_path_in_walk(states, w, path, m - 1);
        let i = path[m - 1];
        let x = choose|x: int| 0 <= x < w.len() && w[x] == i;
        assert(states[path[m - 1]].1.len() <= 1);
        let t = spec_place_targets(states, i, true, false);
        assert(t == spec_place_targets(states, i, false, false));
        let y = choose|y: int| 0 <= y < t.len() && t[y] == path[m];
        assert(w.contains(spec_place_targets(states, w[x], false, false)[y]));
    }
}

proof fn lemma_ambiguity_on_path<T>(
    states: Seq<EntryModel<T>>,
    w: Seq<int>,
    path: Seq<int>,
    m: int,
)
    requires
        spec_followed_upto(states, w, w.len() as int, false, false),
        spec_is_path(states, path, true, false),
        w.contains(path[0]),
        0 <= m < path.len(),
        states[path[m]].1.len() > 1,
    ensures
        exists|x: int| 0 <= x < w.len() && (#[trigger] states[w[x]]).1.len() > 1,
    decreases m,
{
    if exists|k: int| 0 <= k < m && (#[trigger] states[path[k]]).1.len() > 1 {
        let k = choose|k: int| 0 <= k < m && (#[trigger] states[path[k]]).1.len() > 1;
        lemma_ambiguity_on_path(states, w, path, k);
    } else {
        lemma_path_in_walk(states, w, path, m);
        let x = choose|x: int| 0 <= x < w.len() && w[x] == path[m];
        assert(states[w[x]].1.len() > 1);
    }
}

/// Whether some item that can be reached from `root`, over all packed
/// nodes, has more than one packed node.
pub open spec fn spec_has_ambiguity<T>(states: Seq<EntryModel<T>>, root: StateModel<T>) -> bool {
    spec_find(states, root) matches Some(r) && exists|j: int|
        0 <= j < states.len() && #[trigger] spec_reaches(states, r, j, true, false)
            && states[j].1.len() > 1
}

/// The search for an ambiguity finds an item exactly where some item that
/// can be reached from the root has more than one packed node; and the
/// item it finds is such an item.
pub proof fn lemma_ambiguity_found<T>(states: Seq<EntryModel<T>>, root: StateModel<T>)
    ensures
        spec_ambiguity(states, root) is Some <==> spec_has_ambiguity(states, root),
        spec_ambiguity(states, root) matches Some(s) ==> exists|j: int|
            0 <= j < states.len() && #[trigger] spec_reaches(
                states,
                spec_find(states, root)->Some_0,
                j,
                true,
                false,
            ) && states[j].0 == s && states[j].1.len() > 1,
{
    lemma_find(states, root);
    match spec_find(states, root) {
        None => {
            assert(spec_order(states, root, false, false) =~= Seq::<int>::empty());
        },
        Some(r) => {
            let first = seq![r];
            let start = seq![r];
            assert(spec_is_path(states, start, false, false));
            assert(start[0] == r && start.last() == r);
            assert(spec_reaches(states, r, r, false, false));
            lemma_walk(states, first, 0, false, false, r);
            let w = spec_walk(states, first, 0, false, false);
            lemma_first_ambiguous(states, w, 0);
            match spec_ambiguity(states, root) {
                Some(s) => {
                    let x = choose|x: int|
                        0 <= x < w.len() && (#[trigger] states[w[x]]).1.len() > 1
                            && states[w[x]].0 == s;
                    let path = choose|path: Seq<int>|
                        spec_is_path(states, path, false, false) && path[0] == r
                            && #[trigger] path.last() == w[x];
                    lemma_path_over_all(states, path);
                    assert(spec_reaches(states, r, w[x], true, false));
                },
                None => {
                    if spec_has_ambiguity(states, root) {
                        let j = choose|j: int|
                            0 <= j < states.len() && #[trigger] spec_reaches(
                                states,
                                r,
                                j,
                                true,
                                false,
                            ) && states[j].1.len() > 1;
                        let path = choose|path: Seq<int>|
                            spec_is_path(states, path, true, false) && path[0] == r
                                && #[trigger] path.last() == j;
                        assert(w[0] == r);
                        lemma_ambiguity_on_path(states, w, path, path.len() - 1);
                    }
                },
            }
        },
    }
}

/// Whether the forest `f` holds what a derivation stands for, where that
/// is an item.
pub open spec fn spec_in_forest<T>(f: Seq<EntryModel<T>>, d: DerivationModel<T>) -> bool {
    match d {
        DerivationModel::CompletedFrom { state } => spec_find(f, state) is Some,
        DerivationModel::ScannedFrom { symbol, idx } => true,
    }
}

/// Whether a forest is closed: it holds every item that one of its packed
/// nodes stands on.
pub open spec fn spec_forest_closed<T>(f: Seq<EntryModel<T>>) -> bool {
    forall|x: int, y: int|
        0 <= x < f.len() && 0 <= y < f[x].1.len() ==> spec_in_forest(
            f,
            (#[trigger] f[x].1[y]).left_child,
        ) && (f[x].1[y].right_child matches Some(d) ==> spec_in_forest(f, d))
}

/// Whether every item of a forest can be reached from its first item,
/// over all packed nodes.
pub open spec fn spec_forest_reached<T>(f: Seq<EntryModel<T>>) -> bool {
    forall|j: int| 0 <= j < f.len() ==> spec_reaches(f, 0, j, true, false)
}

/// Whether each item of a forest has the packed node of every step that
/// yields it and whose items hold of the sentence.
pub open spec fn spec_forest_full<T>(
    g: Seq<RuleModel<T>>,
    w: Seq<T>,
    f: Seq<EntryModel<T>>,
) -> bool {
    forall|x: int, node: PackedModel<T>|
        0 <= x < f.len() && #[trigger] spec_valid_step(g, w, f[x].0, node) ==> f[x].1.contains(
            node,
        )
}

/// Whether the items that the packed node `node` stands on have a rank
/// below `r`.
pub open spec fn spec_node_below<T>(
    rank: spec_fn(StateModel<T>) -> nat,
    node: PackedModel<T>,
    r: nat,
) -> bool {
    &&& match node.left_child {
        DerivationModel::CompletedFrom { state: p } => rank(p) < r,
        DerivationModel::ScannedFrom { symbol, idx } => true,
    }
    &&& match node.right_child {
        Some(DerivationModel::CompletedFrom { state: d }) => rank(d) < r,
        _ => true,
    }
}

/// Whether `rank` ranks the items of a forest so that the first packed node
/// of each item stands on items of a lower rank.
pub open spec fn spec_ranked<T>(
    f: Seq<EntryModel<T>>,
    rank: spec_fn(StateModel<T>) -> nat,
) -> bool {
    forall|x: int|
        0 <= x < f.len() && (#[trigger] f[x]).1.len() > 0 ==> spec_node_below(
            rank,
            f[x].1[0],
            rank(f[x].0),
        )
}

/// Whether the first packed nodes of a forest lead nowhere in a circle:
/// its items can be ranked so that the first packed node of each stands on
/// items of a lower rank.
pub open spec fn spec_forest_ranked<T>(f: Seq<EntryModel<T>>) -> bool {
    exists|rank: spec_fn(StateModel<T>) -> nat| #[trigger] spec_ranked(f, rank)
}

/// Whether `f` is the forest of the sentence `w` under `root`: the root
/// comes first, no item stands in it twice, each item holds of the
/// sentence, the forest is closed, and every item can be reached from the
/// root. Each packed node of an item is the node of a step that yields the
/// item, none stands there twice, an item that has matched a symbol has one
/// at least, and the first packed nodes lead nowhere in a circle. For a
/// grammar without empty alternatives, an item has the node of every step
/// that yields it and whose items hold of the sentence.
pub open spec fn spec_forest_ok<T>(
    g: Seq<RuleModel<T>>,
    w: Seq<T>,
    f: Seq<EntryModel<T>>,
    root: StateModel<T>,
) -> bool {
    &&& f.len() > 0
    &&& f[0].0 == root
    &&& spec_distinct(f)
    &&& forall|x: int| 0 <= x < f.len() ==> spec_item_holds(g, w, (#[trigger] f[x]).0)
    &&& spec_forest_closed(f)
    &&& spec_forest_reached(f)
    &&& forall|x: int| 0 <= x < f.len() ==> spec_entry_ok(g, w, #[trigger] f[x])
    &&& spec_forest_ranked(f)
    &&& spec_plain(g) ==> spec_forest_full(g, w, f)
}

/// In the forest of a sentence each packed node of an item is the node of
/// a step that yields the item and whose items hold of the sentence, and
/// no node stands there twice. For a grammar without empty alternatives
/// the packed nodes of an item are exactly the nodes of those steps.
pub proof fn lemma_packed_nodes<T>(
    g: Seq<RuleModel<T>>,
    w: Seq<T>,
    f: Seq<EntryModel<T>>,
    root: StateModel<T>,
)
    requires
        spec_forest_ok(g, w, f, root),
    ensures
        forall|x: int, y: int|
            0 <= x < f.len() && 0 <= y < f[x].1.len() ==> spec_valid_step(
                g,
                w,
                f[x].0,
                #[trigger] f[x].1[y],
            ),
        forall|x: int| 0 <= x < f.len() ==> (#[trigger] f[x]).1.no_duplicates(),
        spec_plain(g) ==> forall|x: int, node: PackedModel<T>|
            0 <= x < f.len() ==> (f[x].1.contains(node) <==> #[trigger] spec_valid_step(
                g,
                w,
                f[x].0,
                node,
            )),
{
    assert forall|x: int, y: int| 0 <= x < f.len() && 0 <= y < f[x].1.len() implies spec_valid_step(
        g,
        w,
        f[x].0,
        #[trigger] f[x].1[y],
    ) by {
        let s = f[x].0;
        let node = f[x].1[y];
        assert(spec_entry_ok(g, w, f[x]));
        assert(spec_step(g, w, s, node));
        assert(spec_item_holds(g, w, s));
        assert(spec_in_forest(f, node.left_child));
        if spec_scan_step(g, w, s, node) {
            let p = spec_before(s, (s.end - 1) as nat);
            if p.idx == 0 {
                let trees = choose|trees: Seq<ParseTree<T>>| spec_witness(g, w, s, trees);
                assert(trees.len() == 1);
                assert(trees.drop_last().len() == 0);
                assert(forest_yield(trees) == forest_yield(trees.drop_last()) + tree_yield(
                    trees.last(),
                ));
                assert(forest_yield(trees.drop_last()).len() == 0);
                assert(crate::parser::prs::tree_root(trees[0]) == s.to[0]);
                assert(crate::parser::prs::tree_valid(g, trees[0]));
                match trees[0] {
                    ParseTree::Leaf(symbol) => {},
                    ParseTree::Node(symbol, children) => {
                        assert(spec_is_nonterm(g, symbol));
                    },
                }
                assert(tree_yield(trees[0]).len() == 1);
                assert(s.end - s.origin == 1);
                lemma_fresh_item_holds(g, w, p);
            } else {
                lemma_find(f, p);
            }
        } else {
            match node.left_child {
                DerivationModel::CompletedFrom { state: p } => match node.right_child {
                    Some(DerivationModel::CompletedFrom { state: d }) => {
                        assert(spec_in_forest(f, DerivationModel::CompletedFrom { state: d }));
                        lemma_find(f, p);
                        lemma_find(f, d);
                        assert(spec_valid_completion(g, w, s, p, d));
                    },
                    _ => {},
                },
                _ => {},
            }
        }
    }
    assert forall|x: int| 0 <= x < f.len() implies (#[trigger] f[x]).1.no_duplicates() by {
        assert(spec_entry_ok(g, w, f[x]));
    }
    if spec_plain(g) {
        assert forall|x: int, node: PackedModel<T>| 0 <= x < f.len() implies (f[x].1.contains(node)
            <==> #[trigger] spec_valid_step(g, w, f[x].0, node)) by {
            if f[x].1.contains(node) {
                let y = choose|y: int| 0 <= y < f[x].1.len() && f[x].1[y] == node;
                assert(spec_valid_step(g, w, f[x].0, f[x].1[y]));
            }
        }
    }
}

/// Whether a derivation is an item that has matched nothing.
pub open spec fn spec_matched_nothing<T>(d: DerivationModel<T>) -> bool {
    match d {
        DerivationModel::CompletedFrom { state } => state.idx == 0,
        DerivationModel::ScannedFrom { symbol, idx } => false,
    }
}

/// Whether `e` is an edge from the item of `entry` to a child of its first
/// packed node: to the left child, unless that is an item that has matched
/// nothing, or to the right child.
pub open spec fn spec_edge_of<T>(entry: EntryModel<T>, e: EdgeModel<T>) -> bool {
    &&& entry.1.len() > 0
    &&& e.0 == DerivationModel::CompletedFrom { state: entry.0 }
    &&& (e.1 == entry.1[0].left_child && !spec_matched_nothing(e.1)) || entry.1[0].right_child
        == Some(e.1)
}

/// Whether `d` can be the child of an edge of a tree of the forest `f`: a
/// symbol that was read is the symbol of the sentence that ends at its
/// position; an item is an item of the forest, and for a grammar without
/// empty alternatives one that has matched a symbol.
pub open spec fn spec_child_ok<T>(
    g: Seq<RuleModel<T>>,
    w: Seq<T>,
    f: Seq<EntryModel<T>>,
    d: DerivationModel<T>,
) -> bool {
    match d {
        DerivationModel::ScannedFrom { symbol, idx } => 1 <= idx <= w.len() && symbol == w[idx
            - 1],
        DerivationModel::CompletedFrom { state } => spec_find(f, state) is Some && (spec_plain(g)
            ==> state.idx >= 1),
    }
}

proof fn lemma_edge_source<T>(f: Seq<EntryModel<T>>, order: Seq<int>, upto: nat, k: int)
    requires
        upto <= order.len(),
        0 <= k < spec_edges(f, order, upto).len(),
    ensures
        exists|x: int|
            0 <= x < upto && #[trigger] spec_item_edges(f[order[x]]).contains(
                spec_edges(f, order, upto)[k],
            ),
    decreases upto,
{
    if upto > 0 {
        let before = spec_edges(f, order, (upto - 1) as nat);
        let here = spec_item_edges(f[order[upto - 1]]);
        if k < before.len() {
            assert(spec_edges(f, order, upto)[k] == before[k]);
            lemma_edge_source(f, order, (upto - 1) as nat, k);
        } else {
            assert(spec_edges(f, order, upto)[k] == here[k - before.len()]);
            assert(spec_item_edges(f[order[upto - 1]]).contains(spec_edges(f, order, upto)[k]));
        }
    }
}

/// Each edge of the tree of a forest leads from an item that the walk
/// meets to a child of the first packed node of that item; the child is a
/// symbol of the sentence at its position or an item of the forest, and
/// never an item that has matched nothing where the grammar has no empty
/// alternatives.
pub proof fn lemma_tree_edges<T>(
    g: Seq<RuleModel<T>>,
    w: Seq<T>,
    f: Seq<EntryModel<T>>,
    root: StateModel<T>,
)
    requires
        spec_forest_ok(g, w, f, root),
    ensures
        ({
            let order = spec_order(f, root, false, true);
            let edges = spec_edges(f, order, order.len());
            forall|k: int|
                0 <= k < edges.len() ==> spec_child_ok(g, w, f, (#[trigger] edges[k]).1) && exists|
                    x: int,
                |
                    0 <= x < order.len() && 0 <= order[x] < f.len() && #[trigger] spec_edge_of(
                        f[order[x]],
                        edges[k],
                    )
        }),
{
    let order = spec_order(f, root, false, true);
    let edges = spec_edges(f, order, order.len());
    lemma_find(f, root);
    let r = spec_find(f, root)->Some_0;
    let first = seq![r];
    assert(spec_is_path(f, first, false, true));
    assert(first[0] == r && first.last() == r);
    assert(spec_reaches(f, r, r, false, true));
    lemma_walk(f, first, 0, false, true, r);
    assert forall|k: int| 0 <= k < edges.len() implies spec_child_ok(
        g,
        w,
        f,
        (#[trigger] edges[k]).1,
    ) && exists|x: int|
        0 <= x < order.len() && 0 <= order[x] < f.len() && #[trigger] spec_edge_of(
            f[order[x]],
            edges[k],
        ) by {
        lemma_edge_source(f, order, order.len(), k);
        let x = choose|x: int|
            0 <= x < order.len() && #[trigger] spec_item_edges(f[order[x]]).contains(edges[k]);
        let entry = f[order[x]];
        let e = edges[k];
        let here = spec_item_edges(entry);
        let z = choose|z: int| 0 <= z < here.len() && here[z] == e;
        let node = entry.1[0];
        let parent = DerivationModel::CompletedFrom { state: entry.0 };
        let left = match node.left_child {
            DerivationModel::CompletedFrom { state } => if state.idx == 0 {
                Seq::<EdgeModel<T>>::empty()
            } else {
                seq![(parent, node.left_child)]
            },
            DerivationModel::ScannedFrom { symbol, idx } => seq![(parent, node.left_child)],
        };
        let right = match node.right_child {
            Some(d) => seq![(parent, d)],
            None => Seq::<EdgeModel<T>>::empty(),
        };
        assert(here == left + right);
        assert(spec_entry_ok(g, w, f[order[x]]));
        assert(spec_step(g, w, entry.0, entry.1[0]));
        assert(spec_in_forest(f, f[order[x]].1[0].left_child));
        assert(f[order[x]].1[0].right_child matches Some(d) ==> spec_in_forest(f, d));
        if z < left.len() {
            assert(e == left[z]);
            assert(spec_edge_of(entry, e));
        } else {
            assert(e == right[z - left.len()]);
            assert(spec_edge_of(entry, e));
            match node.right_child {
                Some(DerivationModel::CompletedFrom { state: d }) => {
                    lemma_find(f, d);
                    let at = spec_find(f, d)->Some_0;
                    assert(spec_item_holds(g, w, f[at].0));
                    if spec_plain(g) {
                        let (a, b) = choose|a: int, b: int|
                            0 <= a < g.len() && 0 <= b < g[a].right_hand.len() && g[a].left_hand
                                == d.from && #[trigger] g[a].right_hand[b] == d.to;
                        assert(g[a].right_hand[b].len() > 0);
                    }
                },
                _ => {},
            }
        }
        assert(spec_edge_of(f[order[x]], edges[k]));
    }
}

/// Whether `e` is an entry of one of the first `upto` sets of the chart.
pub open spec fn spec_from_chart<T>(
    c: Seq<Seq<EntryModel<T>>>,
    upto: nat,
    e: EntryModel<T>,
) -> bool {
    exists|j: int, x: int| 0 <= j < upto && 0 <= x < c[j].len() && #[trigger] c[j][x] == e
}

proof fn lemma_flat<T>(c: Seq<Seq<EntryModel<T>>>, upto: nat)
    requires
        upto <= c.len(),
    ensures
        forall|i: int|
            0 <= i < spec_flat(c, upto).len() ==> spec_from_chart(
                c,
                upto,
                #[trigger] spec_flat(c, upto)[i],
            ),
        forall|j: int, x: int|
            0 <= j < upto && 0 <= x < c[j].len() ==> spec_flat(c, upto).contains(
                #[trigger] c[j][x],
            ),
    decreases upto,
{
    let flat = spec_flat(c, upto);
    if upto > 0 {
        let before = spec_flat(c, (upto - 1) as nat);
        lemma_flat(c, (upto - 1) as nat);
        assert forall|i: int| 0 <= i < flat.len() implies spec_from_chart(
            c,
            upto,
            #[trigger] flat[i],
        ) by {
            if i < before.len() {
                assert(flat[i] == before[i]);
                assert(spec_from_chart(c, (upto - 1) as nat, before[i]));
                let (j, x) = choose|j: int, x: int|
                    0 <= j < upto - 1 && 0 <= x < c[j].len() && #[trigger] c[j][x] == before[i];
                assert(c[j][x] == flat[i]);
            } else {
                assert(c[upto - 1][i - before.len()] == flat[i]);
            }
        }
        assert forall|j: int, x: int| 0 <= j < upto && 0 <= x < c[j].len() implies flat.contains(
            #[trigger] c[j][x],
        ) by {
            if j < upto - 1 {
                assert(before.contains(c[j][x]));
                let i = choose|i: int| 0 <= i < before.len() && before[i] == c[j][x];
                assert(flat[i] == c[j][x]);
            } else {
                assert(flat[before.len() + x] == c[j][x]);
            }
        }
    }
}

proof fn lemma_target_of_found<T>(states: Seq<EntryModel<T>>, nodes: Seq<PackedModel<T>>, y: int)
    requires
        0 <= y < nodes.len(),
    ensures
        nodes[y].left_child matches DerivationModel::CompletedFrom { state } ==> (spec_find(
            states,
            state,
        ) matches Some(i) ==> spec_nodes_targets(states, nodes, nodes.len(), false).contains(i)),
        nodes[y].right_child matches Some(DerivationModel::CompletedFrom { state }) ==> (
        spec_find(states, state) matches Some(i) ==> spec_nodes_targets(
            states,
            nodes,
            nodes.len(),
            false,
        ).contains(i)),
{
    lemma_targets_grow(states, nodes, (y + 1) as nat, nodes.len(), false);
    let upto = spec_nodes_targets(states, nodes, (y + 1) as nat, false);
    let before = spec_nodes_targets(states, nodes, y as nat, false);
    let here = spec_node_targets(states, nodes[y], false);
    let whole = spec_nodes_targets(states, nodes, nodes.len(), false);
    assert(upto == before + here);
    let left = spec_target(states, nodes[y].left_child, false);
    let right = match nodes[y].right_child {
        Some(d) => spec_target(states, d, false),
        None => Seq::<int>::empty(),
    };
    assert(here == left + right);
    match nodes[y].left_child {
        DerivationModel::CompletedFrom { state } => {
            match spec_find(states, state) {
                Some(i) => {
                    assert(left[0] == i);
                    assert(here[0] == i);
                    assert(upto[before.len() as int] == i);
                    assert(whole.contains(upto[before.len() as int]));
                },
                None => {},
            }
        },
        _ => {},
    }
    match nodes[y].right_child {
        Some(DerivationModel::CompletedFrom { state }) => {
            match spec_find(states, state) {
                Some(i) => {
                    assert(right[0] == i);
                    assert(here[left.len() as int] == i);
                    assert(upto[(before.len() + left.len()) as int] == i);
                    assert(whole.contains(upto[(before.len() + left.len()) as int]));
                },
                None => {},
            }
        },
        _ => {},
    }
}

/// A place among those that a walk follows from packed nodes is the place
/// of an item that one of the nodes stands on.
proof fn lemma_target_source<T>(
    states: Seq<EntryModel<T>>,
    nodes: Seq<PackedModel<T>>,
    upto: nat,
    p: int,
)
    requires
        upto <= nodes.len(),
        spec_nodes_targets(states, nodes, upto, false).contains(p),
    ensures
        exists|y: int|
            0 <= y < upto && #[trigger] spec_node_targets(states, nodes[y], false).contains(p),
    decreases upto,
{
    if upto > 0 {
        let before = spec_nodes_targets(states, nodes, (upto - 1) as nat, false);
        let here = spec_node_targets(states, nodes[upto - 1], false);
        let whole = spec_nodes_targets(states, nodes, upto, false);
        assert(whole == before + here);
        let i = choose|i: int| 0 <= i < whole.len() && whole[i] == p;
        if i < before.len() {
            assert(before[i] == p);
            lemma_target_source(states, nodes, (upto - 1) as nat, p);
        } else {
            assert(here[i - before.len()] == p);
            assert(spec_node_targets(states, nodes[upto - 1], false).contains(p));
        }
    }
}

/// A place that a walk follows from a packed node is the place of the
/// item of one of its children.
proof fn lemma_node_source<T>(states: Seq<EntryModel<T>>, node: PackedModel<T>, p: int)
    requires
        spec_node_targets(states, node, false).contains(p),
    ensures
        (node.left_child matches DerivationModel::CompletedFrom { state } && spec_find(
            states,
            state,
        ) == Some(p)) || (node.right_child matches Some(
            DerivationModel::CompletedFrom { state },
        ) && spec_find(states, state) == Some(p)),
{
    let left = spec_target(states, node.left_child, false);
    let right = match node.right_child {
        Some(d) => spec_target(states, d, false),
        None => Seq::<int>::empty(),
    };
    let here = spec_node_targets(states, node, false);
    assert(here == left + right);
    let i = choose|i: int| 0 <= i < here.len() && here[i] == p;
    if i < left.len() {
        assert(left[i] == p);
    } else {
        assert(right[i - left.len()] == p);
    }
}

/// The end of a path through the items of a chart from the first item of a
/// walk is an item of the forest that the walk picks, and can be reached
/// there from the first.
proof fn lemma_reach_in_forest<T>(flat: Seq<EntryModel<T>>, order: Seq<int>, path: Seq<int>)
    requires
        spec_places(order, flat.len()),
        order.len() > 0,
        spec_followed_upto(flat, order, order.len() as int, true, false),
        spec_distinct(flat),
        spec_is_path(flat, path, true, false),
        path[0] == order[0],
    ensures
        exists|q: int|
            0 <= q < order.len() && #[trigger] order[q] == path.last() && spec_reaches(
                spec_pick(flat, order),
                0,
                q,
                true,
                false,
            ),
    decreases path.len(),
{
    let f = spec_pick(flat, order);
    if path.len() == 1 {
        let first = seq![0int];
        assert(spec_is_path(f, first, true, false));
        assert(first[0] == 0 && first.last() == 0);
        assert(spec_reaches(f, 0, 0, true, false));
        assert(order[0] == path.last());
    } else {
        let shorter = path.drop_last();
        assert forall|k: int| 0 <= k < shorter.len() - 1 implies spec_place_targets(
            flat,
            #[trigger] shorter[k],
            true,
            false,
        ).contains(shorter[k + 1]) by {
            assert(shorter[k] == path[k]);
            assert(shorter[k + 1] == path[k + 1]);
        }
        assert forall|k: int| 0 <= k < shorter.len() implies 0 <= #[trigger] shorter[k]
            < flat.len() by {
            assert(shorter[k] == path[k]);
        }
        assert(spec_is_path(flat, shorter, true, false));
        lemma_reach_in_forest(flat, order, shorter);
        let via = choose|q: int|
            0 <= q < order.len() && #[trigger] order[q] == shorter.last() && spec_reaches(
                f,
                0,
                q,
                true,
                false,
            );
        let from = path[path.len() - 2];
        let to = path.last();
        assert(shorter.last() == from);
        assert(spec_place_targets(flat, path[path.len() - 2], true, false).contains(
            path[path.len() - 2 + 1],
        ));
        let targets = spec_place_targets(flat, from, true, false);
        let y = choose|y: int| 0 <= y < targets.len() && targets[y] == to;
        assert(order.contains(spec_place_targets(flat, order[via], true, false)[y]));
        let q = choose|q: int| 0 <= q < order.len() && order[q] == to;
        let nodes = flat[from].1;
        assert(f[via] == flat[from]);
        lemma_target_source(flat, nodes, nodes.len(), to);
        let z = choose|z: int|
            0 <= z < nodes.len() && #[trigger] spec_node_targets(flat, nodes[z], false).contains(
                to,
            );
        lemma_node_source(flat, nodes[z], to);
        lemma_target_of_found(f, nodes, z);
        assert(f[q].0 == flat[to].0);
        assert(spec_distinct(f)) by {
            assert forall|a: int, b: int| 0 <= a < f.len() && 0 <= b < f.len() && a != b implies (
            #[trigger] f[a]).0 != (#[trigger] f[b]).0 by {
                assert(order[a] != order[b]);
            }
        }
        match nodes[z].left_child {
            DerivationModel::CompletedFrom { state } => {
                if spec_find(flat, state) == Some(to) {
                    lemma_find(flat, state);
                    lemma_find(f, state);
                    assert(f[q].0 == state);
                    assert(spec_find(f, state) == Some(q));
                }
            },
            _ => {},
        }
        match nodes[z].right_child {
            Some(DerivationModel::CompletedFrom { state }) => {
                if spec_find(flat, state) == Some(to) {
                    lemma_find(flat, state);
                    lemma_find(f, state);
                    assert(f[q].0 == state);
                    assert(spec_find(f, state) == Some(q));
                }
            },
            _ => {},
        }
        assert(spec_place_targets(f, via, true, false).contains(q));
        lemma_path_longer(f, 0, via, q, true, false);
    }
}

/// The entries of a set of a chart stand in the row of its entries behind
/// those of the sets before it.
proof fn lemma_flat_index<T>(c: Seq<Seq<EntryModel<T>>>, upto: nat, j: int, x: int)
    requires
        0 <= j < upto <= c.len(),
        0 <= x < c[j].len(),
    ensures
        spec_flat(c, j as nat).len() + x < spec_flat(c, upto).len(),
        spec_flat(c, upto)[spec_flat(c, j as nat).len() + x] == c[j][x],
    decreases upto,
{
    let before = spec_flat(c, (upto - 1) as nat);
    if j == upto - 1 {
        assert(spec_flat(c, upto)[before.len() + x] == c[j][x]);
    } else {
        lemma_flat_index(c, (upto - 1) as nat, j, x);
        assert(spec_flat(c, upto)[spec_flat(c, j as nat).len() + x] == before[spec_flat(
            c,
            j as nat,
        ).len() + x]);
    }
}

/// The row of the entries of the first sets of a chart grows with each
/// set.
proof fn lemma_flat_grows<T>(c: Seq<Seq<EntryModel<T>>>, j: int, upto: int)
    requires
        0 <= j < upto <= c.len(),
    ensures
        spec_flat(c, j as nat).len() + c[j].len() <= spec_flat(c, upto as nat).len(),
    decreases upto,
{
    if j < upto - 1 {
        lemma_flat_grows(c, j, upto - 1);
    }
}

/// The place in the row of the entries of a chart of an item that stands
/// in the chart before the place `x` of the set at `j` lies before the
/// place of the entry at `x` of that set.
proof fn lemma_flat_before<T>(
    g: Seq<RuleModel<T>>,
    w: Seq<T>,
    c: Seq<Seq<EntryModel<T>>>,
    p: StateModel<T>,
    j: int,
    x: int,
)
    requires
        spec_chart_ok(g, w, c),
        0 <= j < c.len(),
        0 <= x < c[j].len(),
        spec_done(c, p, j, x),
        spec_distinct(spec_flat(c, c.len())),
    ensures
        spec_find(spec_flat(c, c.len()), p) matches Some(i) && i < spec_flat(c, j as nat).len()
            + x,
{
    let flat = spec_flat(c, c.len());
    let z = choose|z: int|
        0 <= z < c[p.end as int].len() && (#[trigger] c[p.end as int][z]).0 == p && (p.end < j || (
        p.end == j && z < x));
    lemma_flat_index(c, c.len(), p.end as int, z);
    let at = spec_flat(c, p.end).len() + z;
    assert(flat[at].0 == p);
    lemma_find(flat, p);
    let i = spec_find(flat, p)->Some_0;
    assert(i == at);
    if p.end < j {
        lemma_flat_grows(c, p.end as int, j);
    }
}

/// The rank of an item by its place in a row of entries.
pub open spec fn spec_place_rank<T>(flat: Seq<EntryModel<T>>) -> spec_fn(StateModel<T>) -> nat {
    |s: StateModel<T>|
        match spec_find(flat, s) {
            Some(i) => i as nat,
            None => 0nat,
        }
}

/// The entries that stand at places of the row of the entries of a chart
/// can be ranked by their places.
proof fn lemma_forest_ranked<T>(
    g: Seq<RuleModel<T>>,
    w: Seq<T>,
    c: Seq<Seq<EntryModel<T>>>,
    order: Seq<int>,
)
    requires
        spec_chart_ok(g, w, c),
        spec_first_precede(c),
        spec_distinct(spec_flat(c, c.len())),
        spec_places(order, spec_flat(c, c.len()).len()),
    ensures
        spec_forest_ranked(spec_pick(spec_flat(c, c.len()), order)),
{
    let flat = spec_flat(c, c.len());
    let f = spec_pick(flat, order);
    lemma_flat(c, c.len());
    let rank = spec_place_rank(flat);
    assert(spec_distinct(flat));
    assert forall|x: int| 0 <= x < f.len() && (#[trigger] f[x]).1.len() > 0 implies spec_node_below(
        rank,
        f[x].1[0],
        rank(f[x].0),
    ) by {
        assert(spec_from_chart(c, c.len(), flat[order[x]]));
        let (j, z) = choose|j: int, z: int|
            0 <= j < c.len() && 0 <= z < c[j].len() && #[trigger] c[j][z] == flat[order[x]];
        lemma_flat_index(c, c.len(), j, z);
        let at = spec_flat(c, j as nat).len() + z;
        assert(flat[at].0 == flat[order[x]].0);
        assert(at == order[x]);
        lemma_find(flat, f[x].0);
        assert(spec_find(flat, f[x].0) == Some(at));
        assert(rank(f[x].0) == at);
        let node = c[j][z].1[0];
        assert(spec_node_precedes(c, c[j][z].1[0], j, z));
        assert(f[x].1[0] == node);
        match node.left_child {
            DerivationModel::CompletedFrom { state: p } => {
                lemma_flat_before(g, w, c, p, j, z);
                lemma_find(flat, p);
                assert(rank(p) == spec_find(flat, p)->Some_0);
                assert(rank(p) < at);
            },
            _ => {},
        }
        match node.right_child {
            Some(DerivationModel::CompletedFrom { state: d }) => {
                lemma_flat_before(g, w, c, d, j, z);
                lemma_find(flat, d);
                assert(rank(d) == spec_find(flat, d)->Some_0);
                assert(rank(d) < at);
            },
            _ => {},
        }
        assert(spec_node_below(rank, node, at as nat));
    }
    assert(spec_ranked(f, rank));
}

/// For a grammar without empty alternatives, the entries that stand at
/// places of the row of the entries of a sound, closed and saturated chart
/// have the packed node of every step that yields their item and whose
/// items hold of the sentence.
proof fn lemma_forest_full<T>(
    g: Seq<RuleModel<T>>,
    w: Seq<T>,
    c: Seq<Seq<EntryModel<T>>>,
    order: Seq<int>,
)
    requires
        spec_chart_ok(g, w, c),
        spec_chart_closed(c),
        spec_saturated_upto(g, w, c, c.len() as int, 0),
        spec_plain(g),
        spec_places(order, spec_flat(c, c.len()).len()),
    ensures
        spec_forest_full(g, w, spec_pick(spec_flat(c, c.len()), order)),
{
    let flat = spec_flat(c, c.len());
    let f = spec_pick(flat, order);
    lemma_flat(c, c.len());
    if spec_plain(g) {
        assert forall|x: int, node: PackedModel<T>|
            0 <= x < f.len() && #[trigger] spec_valid_step(g, w, f[x].0, node)
                implies f[x].1.contains(node) by {
            assert(spec_from_chart(c, c.len(), flat[order[x]]));
            let (j, z) = choose|j: int, z: int|
                0 <= j < c.len() && 0 <= z < c[j].len() && #[trigger] c[j][z] == flat[order[x]];
            let item = c[j][z].0;
            assert(item.end == j);
            lemma_find(c[j], item);
            lemma_step_in_chart(g, w, c, item, node);
            let at = spec_find(c[j], item)->Some_0;
            assert(at == z);
        }
    }
}

/// The forest that hangs from an item of a sound, closed and saturated
/// chart is a forest of the sentence under that item.
pub proof fn lemma_forest_ok<T>(
    g: Seq<RuleModel<T>>,
    w: Seq<T>,
    c: Seq<Seq<EntryModel<T>>>,
    root: StateModel<T>,
)
    requires
        spec_chart_ok(g, w, c),
        spec_chart_closed(c),
        spec_saturated_upto(g, w, c, c.len() as int, 0),
        spec_first_precede(c),
        spec_present(c, root),
    ensures
        spec_forest_ok(
            g,
            w,
            spec_pick(spec_flat(c, c.len()), spec_order(spec_flat(c, c.len()), root, true, false)),
            root,
        ),
{
    let flat = spec_flat(c, c.len());
    lemma_flat(c, c.len());
    lemma_find(c[root.end as int], root);
    let at = spec_find(c[root.end as int], root)->Some_0;
    assert(c[root.end as int][at].0 == root);
    assert(flat.contains(c[root.end as int][at]));
    lemma_find(flat, root);
    let r = spec_find(flat, root)->Some_0;
    let first = seq![r];
    assert(spec_is_path(flat, first, true, false));
    assert(first[0] == r && first.last() == r);
    assert(spec_reaches(flat, r, r, true, false));
    lemma_walk(flat, first, 0, true, false, r);
    let order = spec_walk(flat, first, 0, true, false);
    let f = spec_pick(flat, order);
    assert(order[0] == r);
    assert(f[0] == flat[r]);
    assert forall|a: int, b: int| 0 <= a < flat.len() && 0 <= b < flat.len() && a != b implies (
    #[trigger] flat[a]).0 != (#[trigger] flat[b]).0 by {
        if flat[a].0 == flat[b].0 {
            lemma_flat_places(c, c.len(), a, b);
        }
    }
    assert(spec_distinct(f));
    assert forall|x: int| 0 <= x < f.len() implies spec_item_holds(g, w, (#[trigger] f[x]).0) by {
        assert(spec_from_chart(c, c.len(), flat[order[x]]));
        let (j, z) = choose|j: int, z: int|
            0 <= j < c.len() && 0 <= z < c[j].len() && #[trigger] c[j][z] == flat[order[x]];
        assert(spec_item_holds(g, w, c[j][z].0));
    }
    assert forall|x: int, y: int| 0 <= x < f.len() && 0 <= y < f[x].1.len() implies spec_in_forest(
        f,
        (#[trigger] f[x].1[y]).left_child,
    ) && (f[x].1[y].right_child matches Some(d) ==> spec_in_forest(f, d)) by {
        let i = order[x];
        assert(spec_from_chart(c, c.len(), flat[i]));
        let (j, z) = choose|j: int, z: int|
            0 <= j < c.len() && 0 <= z < c[j].len() && #[trigger] c[j][z] == flat[i];
        let nodes = flat[i].1;
        assert(nodes == c[j][z].1);
        lemma_target_of_found(flat, nodes, y);
        match nodes[y].left_child {
            DerivationModel::CompletedFrom { state } => {
                lemma_forest_holds(c, flat, order, state, x);
            },
            _ => {},
        }
        match nodes[y].right_child {
            Some(DerivationModel::CompletedFrom { state }) => {
                lemma_forest_holds(c, flat, order, state, x);
            },
            _ => {},
        }
    }
    assert forall|j: int| 0 <= j < f.len() implies spec_reaches(f, 0, j, true, false) by {
        assert(spec_reaches(flat, r, order[j], true, false));
        let path = choose|path: Seq<int>|
            spec_is_path(flat, path, true, false) && path[0] == r && #[trigger] path.last()
                == order[j];
        lemma_reach_in_forest(flat, order, path);
        let q = choose|q: int|
            0 <= q < order.len() && #[trigger] order[q] == path.last() && spec_reaches(
                f,
                0,
                q,
                true,
                false,
            );
        assert(q == j);
    }
    assert forall|x: int| 0 <= x < f.len() implies spec_entry_ok(g, w, #[trigger] f[x]) by {
        assert(spec_from_chart(c, c.len(), flat[order[x]]));
        let (j, z) = choose|j: int, z: int|
            0 <= j < c.len() && 0 <= z < c[j].len() && #[trigger] c[j][z] == flat[order[x]];
        assert(spec_entry_ok(g, w, c[j][z]));
    }
    lemma_forest_ranked(g, w, c, order);
    if spec_plain(g) {
        lemma_forest_full(g, w, c, order);
    }
}

proof fn lemma_flat_places<T>(c: Seq<Seq<EntryModel<T>>>, upto: nat, a: int, b: int)
    requires
        upto <= c.len(),
        forall|j: int| 0 <= j < c.len() ==> spec_distinct(#[trigger] c[j]),
        forall|j: int, x: int|
            0 <= j < c.len() && 0 <= x < c[j].len() ==> (#[trigger] c[j][x]).0.end == j,
        0 <= a < spec_flat(c, upto).len(),
        0 <= b < spec_flat(c, upto).len(),
        spec_flat(c, upto)[a].0 == spec_flat(c, upto)[b].0,
    ensures
        a == b,
    decreases upto,
{
    if upto > 0 {
        let before = spec_flat(c, (upto - 1) as nat);
        let flat = spec_flat(c, upto);
        lemma_flat(c, (upto - 1) as nat);
        if a < before.len() && b < before.len() {
            assert(flat[a] == before[a]);
            assert(flat[b] == before[b]);
            lemma_flat_places(c, (upto - 1) as nat, a, b);
        } else if a >= before.len() && b >= before.len() {
            assert(flat[a] == c[upto - 1][a - before.len()]);
            assert(flat[b] == c[upto - 1][b - before.len()]);
        } else if a < before.len() {
            assert(flat[a] == before[a]);
            assert(flat[b] == c[upto - 1][b - before.len()]);
            assert(spec_from_chart(c, (upto - 1) as nat, before[a]));
            let (j, x) = choose|j: int, x: int|
                0 <= j < upto - 1 && 0 <= x < c[j].len() && #[trigger] c[j][x] == before[a];
            assert(c[j][x].0.end == j);
            assert(c[upto - 1][b - before.len()].0.end == upto - 1);
        } else {
            assert(flat[b] == before[b]);
            assert(flat[a] == c[upto - 1][a - before.len()]);
            assert(spec_from_chart(c, (upto - 1) as nat, before[b]));
            let (j, x) = choose|j: int, x: int|
                0 <= j < upto - 1 && 0 <= x < c[j].len() && #[trigger] c[j][x] == before[b];
            assert(c[j][x].0.end == j);
            assert(c[upto - 1][a - before.len()].0.end == upto - 1);
        }
    }
}

proof fn lemma_forest_holds<T>(
    c: Seq<Seq<EntryModel<T>>>,
    flat: Seq<EntryModel<T>>,
    order: Seq<int>,
    state: StateModel<T>,
    x: int,
)
    requires
        flat == spec_flat(c, c.len()),
        spec_present(c, state),
        spec_places(order, flat.len()),
        spec_followed_upto(flat, order, order.len() as int, true, false),
        0 <= x < order.len(),
        spec_find(flat, state) matches Some(i) ==> spec_place_targets(
            flat,
            order[x],
            true,
            false,
        ).contains(i),
    ensures
        spec_find(spec_pick(flat, order), state) is Some,
{
    lemma_flat(c, c.len());
    lemma_find(c[state.end as int], state);
    let at = spec_find(c[state.end as int], state)->Some_0;
    assert(c[state.end as int][at].0 == state);
    assert(flat.contains(c[state.end as int][at]));
    lemma_find(flat, state);
    let i = spec_find(flat, state)->Some_0;
    let t = spec_place_targets(flat, order[x], true, false);
    let y = choose|y: int| 0 <= y < t.len() && t[y] == i;
    assert(order.contains(spec_place_targets(flat, order[x], true, false)[y]));
    let z = choose|z: int| 0 <= z < order.len() && order[z] == i;
    let f = spec_pick(flat, order);
    assert(f[z].0 == state);
    lemma_find(f, state);
}

} // verus!
