//! The tree of a forest: for a grammar without empty alternatives, no
//! symbol and no item is the child of two of its edges.

use crate::parser::complete::{lemma_forest_spans, spec_plain};
use crate::parser::forest::{
    lemma_walk, spec_edge_of, spec_forest_ok, spec_in_forest, spec_is_path, spec_node_below,
    spec_ranked, spec_reaches,
};
use crate::parser::leaves::{lemma_first_targets, lemma_single_leaf};
use crate::parser::prs::{
    lemma_find, spec_before, spec_completes_to, spec_edges, spec_entry_ok, spec_find,
    spec_item_edges, spec_item_holds, spec_order, spec_place_targets, spec_scan_step,
    spec_scanned_node, spec_step, spec_target, spec_witness, DerivationModel, EdgeModel,
    EntryModel, ParseTree, RuleModel, StateModel,
};
use vstd::prelude::*;

verus! {

/// Whether the item `a` lies within the span of the item `b`.
pub open spec fn spec_within<T>(a: StateModel<T>, b: StateModel<T>) -> bool {
    b.origin <= a.origin && a.end <= b.end
}

/// Whether the spans of two items lie apart.
pub open spec fn spec_apart<T>(a: StateModel<T>, b: StateModel<T>) -> bool {
    a.end <= b.origin || b.end <= a.origin
}

/// Whether the item `c` is a child of the first packed node of `entry`
/// that a walk follows: the left child, unless it has matched nothing, or
/// the right child.
pub open spec fn spec_child<T>(entry: EntryModel<T>, c: StateModel<T>) -> bool {
    &&& entry.1.len() > 0
    &&& (entry.1[0].left_child == (DerivationModel::CompletedFrom { state: c }) && c.idx != 0)
        || entry.1[0].right_child == Some(DerivationModel::CompletedFrom { state: c })
}

/// A child of the first packed node of an item of a forest is an item of
/// the forest of a lower rank, whose span lies within the span of the
/// item.
pub proof fn lemma_child_within<T>(
    g: Seq<RuleModel<T>>,
    w: Seq<T>,
    f: Seq<EntryModel<T>>,
    root: StateModel<T>,
    rank: spec_fn(StateModel<T>) -> nat,
    i: int,
    c: StateModel<T>,
)
    requires
        spec_forest_ok(g, w, f, root),
        spec_ranked(f, rank),
        0 <= i < f.len(),
        spec_child(f[i], c),
    ensures
        spec_find(f, c) is Some,
        spec_item_holds(g, w, c),
        spec_within(c, f[i].0),
        rank(c) < rank(f[i].0),
        !spec_scan_step(g, w, f[i].0, f[i].1[0]) ==> exists|p: StateModel<T>, d: StateModel<T>|
            #[trigger] spec_completes_to(f[i].0, p, d) && f[i].1[0].left_child == (
            DerivationModel::CompletedFrom { state: p }) && f[i].1[0].right_child == Some(
                DerivationModel::CompletedFrom { state: d },
            ) && spec_item_holds(g, w, p) && spec_item_holds(g, w, d),
        spec_scan_step(g, w, f[i].0, f[i].1[0]) ==> c == spec_before(
            f[i].0,
            (f[i].0.end - 1) as nat,
        ),
{
    let s = f[i].0;
    let node = f[i].1[0];
    assert(spec_entry_ok(g, w, f[i]));
    assert(spec_step(g, w, s, f[i].1[0]));
    assert(spec_node_below(rank, f[i].1[0], rank(f[i].0)));
    assert(spec_in_forest(f, f[i].1[0].left_child));
    assert(f[i].1[0].right_child matches Some(d) ==> spec_in_forest(f, d));
    assert(spec_item_holds(g, w, f[i].0));
    lemma_find(f, c);
    let at = spec_find(f, c)->Some_0;
    assert(spec_item_holds(g, w, f[at].0));
    if spec_scan_step(g, w, s, node) {
        assert(node == spec_scanned_node(
            spec_before(s, (s.end - 1) as nat),
            w[s.end - 1],
            s.end,
        ));
    } else {
        match node.left_child {
            DerivationModel::CompletedFrom { state: p } => match node.right_child {
                Some(DerivationModel::CompletedFrom { state: d }) => {
                    assert(spec_completes_to(s, p, d));
                    lemma_find(f, p);
                    lemma_find(f, d);
                    let ip = spec_find(f, p)->Some_0;
                    let id = spec_find(f, d)->Some_0;
                    assert(spec_item_holds(g, w, f[ip].0));
                    assert(spec_item_holds(g, w, f[id].0));
                },
                _ => {},
            },
            _ => {},
        }
    }
}

/// The place that a walk over the first packed nodes follows from an item
/// is the place of a child of the first packed node of that item.
pub proof fn lemma_target_is_child<T>(
    g: Seq<RuleModel<T>>,
    w: Seq<T>,
    f: Seq<EntryModel<T>>,
    root: StateModel<T>,
    i: int,
    t: int,
)
    requires
        spec_forest_ok(g, w, f, root),
        0 <= i < f.len(),
        spec_place_targets(f, i, false, true).contains(t),
    ensures
        0 <= t < f.len(),
        spec_child(f[i], f[t].0),
{
    let targets = spec_place_targets(f, i, false, true);
    let z = choose|z: int| 0 <= z < targets.len() && targets[z] == t;
    if f[i].1.len() == 0 {
        reveal_with_fuel(crate::parser::prs::spec_nodes_targets, 2);
        assert(targets.len() == 0);
    } else {
        lemma_first_targets(f, i);
        let node = f[i].1[0];
        let left = spec_target(f, node.left_child, true);
        let right = match node.right_child {
            Some(d) => spec_target(f, d, false),
            None => Seq::<int>::empty(),
        };
        assert(targets == left + right);
        if z < left.len() {
            assert(left[z] == t);
            match node.left_child {
                DerivationModel::CompletedFrom { state } => {
                    lemma_find(f, state);
                },
                _ => {},
            }
        } else {
            assert(right[z - left.len()] == t);
            match node.right_child {
                Some(DerivationModel::CompletedFrom { state }) => {
                    lemma_find(f, state);
                },
                _ => {},
            }
        }
    }
}

/// Along a path over the first packed nodes the spans lie within each
/// other and the ranks fall.
pub proof fn lemma_path_within<T>(
    g: Seq<RuleModel<T>>,
    w: Seq<T>,
    f: Seq<EntryModel<T>>,
    root: StateModel<T>,
    rank: spec_fn(StateModel<T>) -> nat,
    path: Seq<int>,
)
    requires
        spec_forest_ok(g, w, f, root),
        spec_ranked(f, rank),
        spec_is_path(f, path, false, true),
    ensures
        spec_within(f[path.last()].0, f[path[0]].0),
        rank(f[path.last()].0) <= rank(f[path[0]].0),
        path.len() > 1 ==> rank(f[path.last()].0) < rank(f[path[0]].0),
    decreases path.len(),
{
    if path.len() > 1 {
        let shorter = path.drop_last();
        assert forall|k: int| 0 <= k < shorter.len() - 1 implies spec_place_targets(
            f,
            #[trigger] shorter[k],
            false,
            true,
        ).contains(shorter[k + 1]) by {
            assert(shorter[k] == path[k]);
            assert(shorter[k + 1] == path[k + 1]);
        }
        assert forall|k: int| 0 <= k < shorter.len() implies 0 <= #[trigger] shorter[k]
            < f.len() by {
            assert(shorter[k] == path[k]);
        }
        assert(spec_is_path(f, shorter, false, true));
        lemma_path_within(g, w, f, root, rank, shorter);
        let from = path[path.len() - 2];
        let to = path.last();
        assert(shorter.last() == from);
        assert(shorter[0] == path[0]);
        assert(spec_place_targets(f, path[path.len() - 2], false, true).contains(
            path[path.len() - 2 + 1],
        ));
        lemma_target_is_child(g, w, f, root, from, to);
        lemma_child_within(g, w, f, root, rank, from, f[to].0);
    }
}

/// Whether `a` is the start of `b`.
pub open spec fn spec_is_prefix(a: Seq<int>, b: Seq<int>) -> bool {
    a.len() <= b.len() && forall|k: int| 0 <= k < a.len() ==> a[k] == b[k]
}

/// What is left of a path from one of its places on is a path.
pub proof fn lemma_tail_path<T>(f: Seq<EntryModel<T>>, path: Seq<int>, from: int)
    requires
        spec_is_path(f, path, false, true),
        0 <= from < path.len(),
    ensures
        spec_is_path(f, path.subrange(from, path.len() as int), false, true),
        path.subrange(from, path.len() as int)[0] == path[from],
        path.subrange(from, path.len() as int).last() == path.last(),
{
    let tail = path.subrange(from, path.len() as int);
    assert forall|k: int| 0 <= k < tail.len() - 1 implies spec_place_targets(
        f,
        #[trigger] tail[k],
        false,
        true,
    ).contains(tail[k + 1]) by {
        assert(tail[k] == path[from + k]);
        assert(tail[k + 1] == path[from + k + 1]);
    }
    assert forall|k: int| 0 <= k < tail.len() implies 0 <= #[trigger] tail[k] < f.len() by {
        assert(tail[k] == path[from + k]);
    }
}

/// Two children of the first packed node of an item that are not the same
/// lie apart.
pub proof fn lemma_children_apart<T>(
    g: Seq<RuleModel<T>>,
    w: Seq<T>,
    f: Seq<EntryModel<T>>,
    root: StateModel<T>,
    rank: spec_fn(StateModel<T>) -> nat,
    i: int,
    a: StateModel<T>,
    b: StateModel<T>,
)
    requires
        spec_forest_ok(g, w, f, root),
        spec_ranked(f, rank),
        0 <= i < f.len(),
        spec_child(f[i], a),
        spec_child(f[i], b),
        a != b,
    ensures
        (a.origin <= a.end && a.end == b.origin && b.origin <= b.end) || (b.origin <= b.end
            && b.end == a.origin && a.origin <= a.end),
{
    lemma_child_within(g, w, f, root, rank, i, a);
    lemma_child_within(g, w, f, root, rank, i, b);
    if !spec_scan_step(g, w, f[i].0, f[i].1[0]) {
        let (p, d) = choose|p: StateModel<T>, d: StateModel<T>|
            #[trigger] spec_completes_to(f[i].0, p, d) && f[i].1[0].left_child == (
            DerivationModel::CompletedFrom { state: p }) && f[i].1[0].right_child == Some(
                DerivationModel::CompletedFrom { state: d },
            ) && spec_item_holds(g, w, p) && spec_item_holds(g, w, d);
        assert((a == p && b == d) || (a == d && b == p));
    }
}

/// Two paths over the first packed nodes from one item: one is the start
/// of the other, or they end at items that lie apart.
pub proof fn lemma_paths_split<T>(
    g: Seq<RuleModel<T>>,
    w: Seq<T>,
    f: Seq<EntryModel<T>>,
    root: StateModel<T>,
    rank: spec_fn(StateModel<T>) -> nat,
    a: Seq<int>,
    b: Seq<int>,
)
    requires
        spec_forest_ok(g, w, f, root),
        spec_ranked(f, rank),
        spec_is_path(f, a, false, true),
        spec_is_path(f, b, false, true),
        a[0] == b[0],
    ensures
        spec_is_prefix(a, b) || spec_is_prefix(b, a) || spec_apart(
            f[a.last()].0,
            f[b.last()].0,
        ),
    decreases a.len(),
{
    if a.len() == 1 {
        assert(spec_is_prefix(a, b));
    } else if b.len() == 1 {
        assert(spec_is_prefix(b, a));
    } else {
        let ta = a.subrange(1, a.len() as int);
        let tb = b.subrange(1, b.len() as int);
        lemma_tail_path(f, a, 1);
        lemma_tail_path(f, b, 1);
        assert(spec_place_targets(f, a[0], false, true).contains(a[0int + 1]));
        assert(spec_place_targets(f, b[0], false, true).contains(b[0int + 1]));
        if a[1] == b[1] {
            lemma_paths_split(g, w, f, root, rank, ta, tb);
            if spec_is_prefix(ta, tb) {
                assert forall|k: int| 0 <= k < a.len() implies a[k] == b[k] by {
                    if k > 0 {
                        assert(ta[k - 1] == a[k]);
                        assert(tb[k - 1] == b[k]);
                    }
                }
                assert(spec_is_prefix(a, b));
            } else if spec_is_prefix(tb, ta) {
                assert forall|k: int| 0 <= k < b.len() implies b[k] == a[k] by {
                    if k > 0 {
                        assert(ta[k - 1] == a[k]);
                        assert(tb[k - 1] == b[k]);
                    }
                }
                assert(spec_is_prefix(b, a));
            }
        } else {
            lemma_target_is_child(g, w, f, root, a[0], a[1]);
            lemma_target_is_child(g, w, f, root, a[0], b[1]);
            assert(f[a[1]].0 != f[b[1]].0);
            lemma_children_apart(g, w, f, root, rank, a[0], f[a[1]].0, f[b[1]].0);
            lemma_path_within(g, w, f, root, rank, ta);
            lemma_path_within(g, w, f, root, rank, tb);
            assert(spec_apart(f[a.last()].0, f[b.last()].0));
        }
    }
}

/// What the child of an edge from an item of the forest is: a symbol that
/// was read at the end of the item, which spans a symbol at least; or an
/// item that is a child of the first packed node, and, for a grammar
/// without empty alternatives, spans a symbol at least.
pub open spec fn spec_edge_child<T>(
    g: Seq<RuleModel<T>>,
    w: Seq<T>,
    entry: EntryModel<T>,
    d: DerivationModel<T>,
) -> bool {
    match d {
        DerivationModel::ScannedFrom { symbol, idx } => {
            &&& entry.1.len() > 0
            &&& spec_scan_step(g, w, entry.0, entry.1[0])
            &&& idx == entry.0.end
            &&& entry.0.origin < entry.0.end
        },
        DerivationModel::CompletedFrom { state } => spec_child(entry, state) && state.origin
            < state.end,
    }
}

/// The child of an edge from an item of the forest of a grammar without
/// empty alternatives.
pub proof fn lemma_edge_child<T>(
    g: Seq<RuleModel<T>>,
    w: Seq<T>,
    f: Seq<EntryModel<T>>,
    root: StateModel<T>,
    rank: spec_fn(StateModel<T>) -> nat,
    i: int,
    e: EdgeModel<T>,
)
    requires
        spec_forest_ok(g, w, f, root),
        spec_ranked(f, rank),
        spec_plain(g),
        0 <= i < f.len(),
        spec_edge_of(f[i], e),
    ensures
        spec_edge_child(g, w, f[i], e.1),
{
    let s = f[i].0;
    let node = f[i].1[0];
    assert(spec_entry_ok(g, w, f[i]));
    assert(spec_step(g, w, s, f[i].1[0]));
    assert(spec_item_holds(g, w, f[i].0));
    assert(spec_in_forest(f, f[i].1[0].left_child));
    match e.1 {
        DerivationModel::ScannedFrom { symbol, idx } => {
            assert(spec_scan_step(g, w, s, node));
            let p = spec_before(s, (s.end - 1) as nat);
            assert(node == spec_scanned_node(p, w[s.end - 1], s.end));
            if p.idx == 0 {
                lemma_single_leaf(g, w, s);
            } else {
                lemma_find(f, p);
                let at = spec_find(f, p)->Some_0;
                assert(spec_item_holds(g, w, f[at].0));
            }
        },
        DerivationModel::CompletedFrom { state: c } => {
            assert(spec_child(f[i], c));
            lemma_child_within(g, w, f, root, rank, i, c);
            if c.idx == 0 {
                assert(node.right_child == Some(e.1));
                assert(!spec_scan_step(g, w, s, node));
                let (a, b) = choose|a: int, b: int|
                    0 <= a < g.len() && 0 <= b < g[a].right_hand.len() && g[a].left_hand == c.from
                        && #[trigger] g[a].right_hand[b] == c.to;
                assert(g[a].right_hand[b].len() > 0);
                assert(c.idx == c.to.len());
            }
            let trees = choose|trees: Seq<ParseTree<T>>| spec_witness(g, w, c, trees);
            lemma_forest_spans(g, trees);
        },
    }
}

/// Two items of the forest of a grammar without empty alternatives that
/// lie apart have no child of an edge in common.
pub proof fn lemma_apart_share_nothing<T>(
    g: Seq<RuleModel<T>>,
    w: Seq<T>,
    f: Seq<EntryModel<T>>,
    root: StateModel<T>,
    rank: spec_fn(StateModel<T>) -> nat,
    i: int,
    j: int,
    d: DerivationModel<T>,
)
    requires
        spec_forest_ok(g, w, f, root),
        spec_ranked(f, rank),
        0 <= i < f.len(),
        0 <= j < f.len(),
        spec_apart(f[i].0, f[j].0),
        spec_edge_child(g, w, f[i], d),
    ensures
        !spec_edge_child(g, w, f[j], d),
{
    if spec_edge_child(g, w, f[j], d) {
        match d {
            DerivationModel::ScannedFrom { symbol, idx } => {},
            DerivationModel::CompletedFrom { state: c } => {
                lemma_child_within(g, w, f, root, rank, i, c);
                lemma_child_within(g, w, f, root, rank, j, c);
            },
        }
    }
}

/// An item of the forest of a grammar without empty alternatives and an
/// item under it have no child of an edge in common.
pub proof fn lemma_nested_share_nothing<T>(
    g: Seq<RuleModel<T>>,
    w: Seq<T>,
    f: Seq<EntryModel<T>>,
    root: StateModel<T>,
    rank: spec_fn(StateModel<T>) -> nat,
    a: Seq<int>,
    b: Seq<int>,
    d: DerivationModel<T>,
)
    requires
        spec_forest_ok(g, w, f, root),
        spec_ranked(f, rank),
        spec_is_path(f, a, false, true),
        spec_is_path(f, b, false, true),
        spec_is_prefix(a, b),
        a.last() != b.last(),
        spec_edge_child(g, w, f[a.last()], d),
    ensures
        !spec_edge_child(g, w, f[b.last()], d),
{
    if spec_edge_child(g, w, f[b.last()], d) {
        lemma_nested_share(g, w, f, root, rank, a, b, d);
    }
}

proof fn lemma_nested_share<T>(
    g: Seq<RuleModel<T>>,
    w: Seq<T>,
    f: Seq<EntryModel<T>>,
    root: StateModel<T>,
    rank: spec_fn(StateModel<T>) -> nat,
    a: Seq<int>,
    b: Seq<int>,
    d: DerivationModel<T>,
)
    requires
        spec_forest_ok(g, w, f, root),
        spec_ranked(f, rank),
        spec_is_path(f, a, false, true),
        spec_is_path(f, b, false, true),
        spec_is_prefix(a, b),
        spec_edge_child(g, w, f[a.last()], d),
        spec_edge_child(g, w, f[b.last()], d),
    ensures
        a.last() == b.last(),
{
    if a.last() != b.last() {
        lemma_nested_differ(g, w, f, root, rank, a, b, d);
    }
}

proof fn lemma_nested_differ<T>(
    g: Seq<RuleModel<T>>,
    w: Seq<T>,
    f: Seq<EntryModel<T>>,
    root: StateModel<T>,
    rank: spec_fn(StateModel<T>) -> nat,
    a: Seq<int>,
    b: Seq<int>,
    d: DerivationModel<T>,
)
    requires
        spec_forest_ok(g, w, f, root),
        spec_ranked(f, rank),
        spec_is_path(f, a, false, true),
        spec_is_path(f, b, false, true),
        spec_is_prefix(a, b),
        a.last() != b.last(),
        spec_edge_child(g, w, f[a.last()], d),
    ensures
        !spec_edge_child(g, w, f[b.last()], d),
{
    let n = a.len() as int;
    if b.len() == n {
        assert(a.last() == a[n - 1]);
        assert(b.last() == b[n - 1]);
    }
    let i = a.last();
    let j = b.last();
    assert(b[n - 1] == a[n - 1]);
    assert(spec_place_targets(f, b[n - 1], false, true).contains(b[n - 1 + 1]));
    let t = b[n];
    lemma_target_is_child(g, w, f, root, i, t);
    let c1 = f[t].0;
    lemma_child_within(g, w, f, root, rank, i, c1);
    lemma_tail_path(f, b, n);
    let tail = b.subrange(n, b.len() as int);
    lemma_path_within(g, w, f, root, rank, tail);
    assert(spec_within(f[j].0, c1));
    assert(rank(f[j].0) <= rank(c1));
    if spec_edge_child(g, w, f[j], d) {
        match d {
            DerivationModel::ScannedFrom { symbol, idx } => {
                assert(c1 == spec_before(f[i].0, (f[i].0.end - 1) as nat));
            },
            DerivationModel::CompletedFrom { state: c } => {
                lemma_child_within(g, w, f, root, rank, j, c);
                lemma_child_within(g, w, f, root, rank, i, c);
                if c != c1 {
                    lemma_children_apart(g, w, f, root, rank, i, c, c1);
                }
            },
        }
    }
}

/// The place among the edges of the tree of the edge number `z` from the
/// item that the walk meets as its number `x`.
pub open spec fn spec_edge_at<T>(f: Seq<EntryModel<T>>, order: Seq<int>, x: int, z: int) -> int {
    spec_edges(f, order, x as nat).len() + z
}

/// Each edge of the tree is one of the edges from one of the items that
/// the walk meets.
pub proof fn lemma_edge_place<T>(f: Seq<EntryModel<T>>, order: Seq<int>, upto: nat, k: int)
    requires
        upto <= order.len(),
        0 <= k < spec_edges(f, order, upto).len(),
    ensures
        exists|x: int, z: int|
            0 <= x < upto && 0 <= z < spec_item_edges(f[order[x]]).len() && #[trigger] spec_edge_at(
                f,
                order,
                x,
                z,
            ) == k && spec_edges(f, order, upto)[k] == spec_item_edges(f[order[x]])[z],
    decreases upto,
{
    if upto > 0 {
        let before = spec_edges(f, order, (upto - 1) as nat);
        let here = spec_item_edges(f[order[upto - 1]]);
        if k < before.len() {
            assert(spec_edges(f, order, upto)[k] == before[k]);
            lemma_edge_place(f, order, (upto - 1) as nat, k);
            let (x, z) = choose|x: int, z: int|
                0 <= x < upto - 1 && 0 <= z < spec_item_edges(f[order[x]]).len()
                    && #[trigger] spec_edge_at(f, order, x, z) == k && before[k]
                    == spec_item_edges(f[order[x]])[z];
            assert(0 <= x < upto && spec_edge_at(f, order, x, z) == k);
        } else {
            let z = k - before.len();
            assert(spec_edges(f, order, upto)[k] == here[z]);
            assert(spec_edge_at(f, order, upto - 1, z) == k);
        }
    }
}

/// The edges from an item: each is an edge to a child of its first packed
/// node, and where there are two, the first leads to the left child and
/// the second to the right one.
pub proof fn lemma_item_edges<T>(entry: EntryModel<T>)
    ensures
        spec_item_edges(entry).len() <= 2,
        forall|z: int|
            0 <= z < spec_item_edges(entry).len() ==> spec_edge_of(
                entry,
                #[trigger] spec_item_edges(entry)[z],
            ),
        spec_item_edges(entry).len() == 2 ==> spec_item_edges(entry)[0].1
            == entry.1[0].left_child && Some(spec_item_edges(entry)[1].1)
            == entry.1[0].right_child,
{
    if entry.1.len() > 0 {
        let parent = DerivationModel::CompletedFrom { state: entry.0 };
        let node = entry.1[0];
        let left = match node.left_child {
            DerivationModel::CompletedFrom { state } => if state.idx == 0 {
                Seq::<EdgeModel<T>>::empty()
            } else {
                seq![(parent, node.left_child)]
            },
            DerivationModel::ScannedFrom { symbol, idx } => seq![(parent, node.left_child)],
        };
        let right = match node.right_child {
            Some(d) => seq![(parent, d)],
            None => Seq::<EdgeModel<T>>::empty(),
        };
        assert(spec_item_edges(entry) == left + right);
        assert forall|z: int| 0 <= z < spec_item_edges(entry).len() implies spec_edge_of(
            entry,
            #[trigger] spec_item_edges(entry)[z],
        ) by {
            if z < left.len() {
                assert(spec_item_edges(entry)[z] == left[z]);
            } else {
                assert(spec_item_edges(entry)[z] == right[z - left.len()]);
            }
        }
        if spec_item_edges(entry).len() == 2 {
            assert(spec_item_edges(entry)[0] == left[0]);
            assert(spec_item_edges(entry)[1] == right[0]);
        }
    }
}

/// In the tree of the forest of a sentence, for a grammar without empty
/// alternatives, no symbol and no item is the child of two edges: the
/// edges form a tree.
pub proof fn lemma_children_once<T>(
    g: Seq<RuleModel<T>>,
    w: Seq<T>,
    f: Seq<EntryModel<T>>,
    root: StateModel<T>,
    first: int,
    second: int,
)
    requires
        spec_forest_ok(g, w, f, root),
        spec_plain(g),
        0 <= first < spec_edges(
            f,
            spec_order(f, root, false, true),
            spec_order(f, root, false, true).len(),
        ).len(),
        0 <= second < spec_edges(
            f,
            spec_order(f, root, false, true),
            spec_order(f, root, false, true).len(),
        ).len(),
        first != second,
    ensures
        ({
            let order = spec_order(f, root, false, true);
            let edges = spec_edges(f, order, order.len());
            edges[first].1 != edges[second].1
        }),
{
    let order = spec_order(f, root, false, true);
    let edges = spec_edges(f, order, order.len());
    let rank = choose|rank: spec_fn(StateModel<T>) -> nat| #[trigger] spec_ranked(f, rank);
    lemma_find(f, root);
    let r = spec_find(f, root)->Some_0;
    let start = seq![r];
    assert(spec_is_path(f, start, false, true));
    assert(start[0] == r && start.last() == r);
    assert(spec_reaches(f, r, r, false, true));
    lemma_walk(f, start, 0, false, true, r);
    lemma_edge_place(f, order, order.len(), first);
    lemma_edge_place(f, order, order.len(), second);
    let (x1, z1) = choose|x: int, z: int|
        0 <= x < order.len() && 0 <= z < spec_item_edges(f[order[x]]).len()
            && #[trigger] spec_edge_at(f, order, x, z) == first && edges[first]
            == spec_item_edges(f[order[x]])[z];
    let (x2, z2) = choose|x: int, z: int|
        0 <= x < order.len() && 0 <= z < spec_item_edges(f[order[x]]).len()
            && #[trigger] spec_edge_at(f, order, x, z) == second && edges[second]
            == spec_item_edges(f[order[x]])[z];
    let i = order[x1];
    let j = order[x2];
    lemma_item_edges(f[i]);
    lemma_item_edges(f[j]);
    let d = edges[first].1;
    if edges[second].1 == d {
        lemma_edge_child(g, w, f, root, rank, i, edges[first]);
        lemma_edge_child(g, w, f, root, rank, j, edges[second]);
        if x1 == x2 {
            assert(z1 != z2);
            assert(spec_item_edges(f[i]).len() == 2);
            let node = f[i].1[0];
            assert(spec_entry_ok(g, w, f[i]));
            assert(spec_step(g, w, f[i].0, f[i].1[0]));
            assert(node.right_child == Some(node.left_child));
            if spec_scan_step(g, w, f[i].0, node) {
                assert(node == spec_scanned_node(
                    spec_before(f[i].0, (f[i].0.end - 1) as nat),
                    w[f[i].0.end - 1],
                    f[i].0.end,
                ));
            }
            assert(edges[first].1 != edges[second].1);
        } else {
            assert(i != j);
            assert(spec_reaches(f, r, order[x1], false, true));
            assert(spec_reaches(f, r, order[x2], false, true));
            let a = choose|path: Seq<int>|
                spec_is_path(f, path, false, true) && path[0] == r && #[trigger] path.last() == i;
            let b = choose|path: Seq<int>|
                spec_is_path(f, path, false, true) && path[0] == r && #[trigger] path.last() == j;
            lemma_paths_split(g, w, f, root, rank, a, b);
            if spec_is_prefix(a, b) {
                lemma_nested_share_nothing(g, w, f, root, rank, a, b, d);
            } else if spec_is_prefix(b, a) {
                lemma_nested_share_nothing(g, w, f, root, rank, b, a, d);
            } else {
                lemma_apart_share_nothing(g, w, f, root, rank, i, j, d);
            }
        }
    }
}

} // verus!
