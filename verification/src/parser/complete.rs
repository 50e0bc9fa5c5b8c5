//! What a saturated chart holds: for a grammar without empty alternatives,
//! the accepting item of every sentence that has a derivation tree, and
//! with each item the packed node of every step that yields it.

use crate::parser::prs::{
    forest_roots, forest_yield, lemma_find, spec_accepting, spec_advanced, spec_before,
    spec_chart_closed, spec_chart_ok, spec_completed_node, spec_completes, spec_completes_to,
    spec_derives, spec_expects, spec_find, spec_fresh, spec_holds_node,
    spec_is_nonterm, spec_item_done, spec_item_holds, spec_predicts, spec_present, spec_rejects,
    spec_rooted, spec_saturated, spec_saturated_upto, spec_scan_step,
    spec_witness, tree_root, tree_valid, tree_yield, DerivationModel, EntryModel, PackedModel,
    ParseTree, RuleModel, StateModel,
};
use vstd::prelude::*;

verus! {

/// Whether no alternative of the grammar is empty.
pub open spec fn spec_plain<T>(g: Seq<RuleModel<T>>) -> bool {
    forall|r: int, a: int|
        0 <= r < g.len() && 0 <= a < g[r].right_hand.len() ==> (#[trigger] g[r].right_hand[a]).len()
            > 0
}

/// A tree of a grammar without empty alternatives has a leaf.
pub proof fn lemma_tree_spans<T>(g: Seq<RuleModel<T>>, t: ParseTree<T>)
    requires
        spec_plain(g),
        tree_valid(g, t),
    ensures
        tree_yield(t).len() >= 1,
    decreases t,
{
    match t {
        ParseTree::Leaf(s) => {},
        ParseTree::Node(s, children) => {
            let (r, a) = choose|r: int, a: int|
                0 <= r < g.len() && 0 <= a < g[r].right_hand.len() && g[r].left_hand == s
                    && #[trigger] g[r].right_hand[a] == forest_roots(children);
            assert(g[r].right_hand[a].len() > 0);
            assert(children.len() > 0);
            lemma_tree_spans(g, children.last());
            assert(tree_valid(g, children[children.len() - 1]));
        },
    }
}

/// Whether `f` are trees of the grammar for the first symbols of `to`.
pub open spec fn spec_forest_of<T>(g: Seq<RuleModel<T>>, to: Seq<T>, f: Seq<ParseTree<T>>) -> bool {
    &&& f.len() <= to.len()
    &&& forall|i: int| 0 <= i < f.len() ==> tree_root(#[trigger] f[i]) == to[i]
    &&& forall|i: int| 0 <= i < f.len() ==> tree_valid(g, #[trigger] f[i])
}

/// A saturated chart that holds an alternative as an item that has
/// matched nothing holds the item of that alternative for each run of
/// trees whose leaves are in the sentence where the item starts.
pub proof fn lemma_forest_in_chart<T>(
    g: Seq<RuleModel<T>>,
    w: Seq<T>,
    c: Seq<Seq<EntryModel<T>>>,
    from: T,
    to: Seq<T>,
    origin: nat,
    end: nat,
    f: Seq<ParseTree<T>>,
)
    requires
        spec_chart_ok(g, w, c),
        spec_saturated_upto(g, w, c, c.len() as int, 0),
        spec_plain(g),
        spec_present(c, spec_fresh(from, to, origin)),
        spec_forest_of(g, to, f),
        origin <= end <= w.len(),
        forest_yield(f) == w.subrange(origin as int, end as int),
    ensures
        spec_present(c, StateModel { from, to, origin, end, idx: f.len() }),
    decreases f,
{
    if f.len() == 0 {
        assert(forest_yield(f).len() == 0);
        assert(end == origin);
    } else {
        let prefix = f.drop_last();
        let last = f.last();
        let y = tree_yield(last);
        assert(tree_valid(g, f[f.len() - 1]));
        assert(tree_root(f[f.len() - 1]) == to[f.len() - 1]);
        assert(forest_yield(f) == forest_yield(prefix) + y);
        assert(forest_yield(f).len() == end - origin);
        let k = (end - y.len()) as nat;
        assert(forest_yield(prefix) =~= w.subrange(origin as int, k as int)) by {
            assert(forall|i: int|
                0 <= i < forest_yield(prefix).len() ==> forest_yield(prefix)[i] == (forest_yield(
                    prefix,
                ) + y)[i]);
        }
        assert(y =~= w.subrange(k as int, end as int)) by {
            assert(forall|i: int|
                0 <= i < y.len() ==> y[i] == (forest_yield(prefix) + y)[forest_yield(prefix).len()
                    + i]);
        }
        assert(spec_forest_of(g, to, prefix)) by {
            assert(forall|i: int| 0 <= i < prefix.len() ==> prefix[i] == f[i]);
        }
        lemma_forest_in_chart(g, w, c, from, to, origin, k, prefix);
        let waiting = StateModel { from, to, origin, end: k, idx: prefix.len() };
        lemma_find(c[k as int], waiting);
        let x = spec_find(c[k as int], waiting)->Some_0;
        assert(spec_item_done(g, w, c, c[k as int][x].0));
        let target = StateModel { from, to, origin, end, idx: f.len() };
        match last {
            ParseTree::Leaf(symbol) => {
                assert(y == seq![symbol]);
                assert(w[k as int] == w.subrange(k as int, end as int)[0]);
                assert(spec_advanced(waiting, k + 1) == target);
            },
            ParseTree::Node(symbol, children) => {
                let (r, a) = choose|r: int, a: int|
                    0 <= r < g.len() && 0 <= a < g[r].right_hand.len() && g[r].left_hand == symbol
                        && #[trigger] g[r].right_hand[a] == forest_roots(children);
                assert(g[r].left_hand == symbol);
                assert(spec_is_nonterm(g, symbol));
                assert(spec_predicts(g, c, symbol, k));
                assert(spec_present(c, spec_fresh(symbol, g[r].right_hand[a], k)));
                lemma_tree_spans(g, last);
                lemma_forest_in_chart(g, w, c, symbol, forest_roots(children), k, end, children);
                let done = StateModel {
                    from: symbol,
                    to: forest_roots(children),
                    origin: k,
                    end,
                    idx: children.len(),
                };
                lemma_find(c[end as int], done);
                let z = spec_find(c[end as int], done)->Some_0;
                assert(spec_item_done(g, w, c, c[end as int][z].0));
                assert(spec_completes(c, done));
                assert(spec_expects(c[k as int][x].0, symbol));
                assert(spec_advanced(waiting, end) == target);
            },
        }
    }
}

/// Whether the step that takes the item `p` over the item `d` yields `s`,
/// and both items hold of the sentence.
pub open spec fn spec_valid_completion<T>(
    g: Seq<RuleModel<T>>,
    w: Seq<T>,
    s: StateModel<T>,
    p: StateModel<T>,
    d: StateModel<T>,
) -> bool {
    &&& spec_completes_to(s, p, d)
    &&& spec_item_holds(g, w, p)
    &&& spec_item_holds(g, w, d)
}

/// Whether `node` is the packed node of a step that yields `s` and whose
/// items hold of the sentence: a step that reads a symbol from an item
/// that holds, or a step that takes an item that holds over a finished
/// item that holds.
pub open spec fn spec_valid_step<T>(
    g: Seq<RuleModel<T>>,
    w: Seq<T>,
    s: StateModel<T>,
    node: PackedModel<T>,
) -> bool {
    ||| {
        &&& spec_scan_step(g, w, s, node)
        &&& spec_item_holds(g, w, spec_before(s, (s.end - 1) as nat))
    }
    ||| match node.left_child {
        DerivationModel::CompletedFrom { state: p } => match node.right_child {
            Some(DerivationModel::CompletedFrom { state: d }) => spec_valid_completion(
                g,
                w,
                s,
                p,
                d,
            ),
            _ => false,
        },
        DerivationModel::ScannedFrom { symbol, idx } => false,
    }
}

/// Trees of a grammar without empty alternatives have as many leaves as
/// they are, at least.
pub proof fn lemma_forest_spans<T>(g: Seq<RuleModel<T>>, f: Seq<ParseTree<T>>)
    requires
        spec_plain(g),
        forall|i: int| 0 <= i < f.len() ==> tree_valid(g, #[trigger] f[i]),
    ensures
        forest_yield(f).len() >= f.len(),
    decreases f.len(),
{
    if f.len() > 0 {
        assert forall|i: int| 0 <= i < f.drop_last().len() implies tree_valid(
            g,
            #[trigger] f.drop_last()[i],
        ) by {
            assert(f.drop_last()[i] == f[i]);
        }
        lemma_forest_spans(g, f.drop_last());
        assert(tree_valid(g, f[f.len() - 1]));
        lemma_tree_spans(g, f.last());
    }
}

/// For a grammar without empty alternatives, a sound and saturated chart
/// that holds an alternative as an item that has matched nothing holds
/// every item of that alternative that starts there and holds of the
/// sentence.
pub proof fn lemma_item_in_chart<T>(
    g: Seq<RuleModel<T>>,
    w: Seq<T>,
    c: Seq<Seq<EntryModel<T>>>,
    s: StateModel<T>,
)
    requires
        spec_chart_ok(g, w, c),
        spec_saturated_upto(g, w, c, c.len() as int, 0),
        spec_plain(g),
        spec_rooted(c, s),
        spec_item_holds(g, w, s),
    ensures
        spec_present(c, s),
{
    let f = choose|f: Seq<ParseTree<T>>| spec_witness(g, w, s, f);
    assert(spec_forest_of(g, s.to, f));
    lemma_forest_in_chart(g, w, c, s.from, s.to, s.origin, s.end, f);
    assert(s == StateModel { from: s.from, to: s.to, origin: s.origin, end: s.end, idx: f.len() });
}

/// For a grammar without empty alternatives, an item of a sound, closed
/// and saturated chart has the packed node of every step that yields it
/// and whose items hold of the sentence.
pub proof fn lemma_step_in_chart<T>(
    g: Seq<RuleModel<T>>,
    w: Seq<T>,
    c: Seq<Seq<EntryModel<T>>>,
    s: StateModel<T>,
    node: PackedModel<T>,
)
    requires
        spec_chart_ok(g, w, c),
        spec_chart_closed(c),
        spec_saturated_upto(g, w, c, c.len() as int, 0),
        spec_plain(g),
        spec_present(c, s),
        spec_valid_step(g, w, s, node),
    ensures
        spec_holds_node(c, s, node),
{
    lemma_find(c[s.end as int], s);
    let at = spec_find(c[s.end as int], s)->Some_0;
    assert(spec_rooted(c, c[s.end as int][at].0));
    if spec_scan_step(g, w, s, node) && spec_item_holds(
        g,
        w,
        spec_before(s, (s.end - 1) as nat),
    ) {
        let p = spec_before(s, (s.end - 1) as nat);
        assert(spec_rooted(c, p));
        lemma_item_in_chart(g, w, c, p);
        lemma_find(c[p.end as int], p);
        let x = spec_find(c[p.end as int], p)->Some_0;
        assert(spec_item_done(g, w, c, c[p.end as int][x].0));
        assert(p.to[p.idx as int] == w[p.end as int]);
        assert(spec_advanced(p, p.end + 1) == s);
    } else {
        match node.left_child {
            DerivationModel::CompletedFrom { state: p } => match node.right_child {
                Some(DerivationModel::CompletedFrom { state: d }) => {
                    assert(spec_valid_completion(g, w, s, p, d));
                    assert(spec_rooted(c, p));
                    lemma_item_in_chart(g, w, c, p);
                    lemma_find(c[p.end as int], p);
                    let x = spec_find(c[p.end as int], p)->Some_0;
                    assert(spec_item_done(g, w, c, c[p.end as int][x].0));
                    let (r, a) = choose|r: int, a: int|
                        0 <= r < g.len() && 0 <= a < g[r].right_hand.len() && g[r].left_hand
                            == d.from && #[trigger] g[r].right_hand[a] == d.to;
                    assert(spec_is_nonterm(g, d.from));
                    assert(p.to[p.idx as int] == d.from);
                    assert(spec_predicts(g, c, d.from, p.end));
                    assert(spec_present(c, spec_fresh(d.from, g[r].right_hand[a], p.end)));
                    assert(spec_rooted(c, d));
                    lemma_item_in_chart(g, w, c, d);
                    let f = choose|f: Seq<ParseTree<T>>| spec_witness(g, w, d, f);
                    lemma_forest_spans(g, f);
                    assert(g[r].right_hand[a].len() > 0);
                    assert(d.origin < d.end);
                    lemma_find(c[d.end as int], d);
                    let z = spec_find(c[d.end as int], d)->Some_0;
                    assert(spec_item_done(g, w, c, c[d.end as int][z].0));
                    assert(spec_completes(c, d));
                    assert(spec_expects(c[d.origin as int][x].0, d.from));
                    assert(spec_advanced(p, d.end) == s);
                    assert(node == spec_completed_node(p, d));
                },
                _ => {},
            },
            DerivationModel::ScannedFrom { symbol, idx } => {},
        }
    }
}

/// For a grammar without empty alternatives, a sound and saturated chart
/// holds the accepting item of every sentence that has a derivation tree
/// from the start symbol by its first alternative.
pub proof fn lemma_chart_accepts<T>(
    g: Seq<RuleModel<T>>,
    w: Seq<T>,
    start: T,
    c: Seq<Seq<EntryModel<T>>>,
    t: ParseTree<T>,
)
    requires
        spec_plain(g),
        spec_chart_ok(g, w, c),
        spec_saturated(g, w, start, c),
        spec_accepting(g, w, start) matches Some(s) && spec_derives(g, start, s.to, w, t),
    ensures
        spec_present(c, spec_accepting(g, w, start)->Some_0),
{
    let accepting = spec_accepting(g, w, start)->Some_0;
    match t {
        ParseTree::Leaf(s) => {},
        ParseTree::Node(s, children) => {
            let (r, a) = choose|r: int, a: int|
                0 <= r < g.len() && 0 <= a < g[r].right_hand.len() && g[r].left_hand == start
                    && #[trigger] g[r].right_hand[a] == forest_roots(children);
            assert(spec_present(c, spec_fresh(start, g[r].right_hand[a], 0)));
            assert(w.subrange(0, w.len() as int) =~= w);
            assert(spec_forest_of(g, accepting.to, children));
            lemma_forest_in_chart(g, w, c, start, accepting.to, 0, w.len(), children);
        },
    }
}

/// Whether the sentence `w` has no derivation tree from `start` by its
/// first alternative.
pub open spec fn spec_underivable<T>(g: Seq<RuleModel<T>>, w: Seq<T>, start: T) -> bool {
    spec_accepting(g, w, start) matches Some(s) ==> forall|t: ParseTree<T>|
        !spec_derives(g, start, s.to, w, t)
}

/// For a grammar without empty alternatives, a sentence that is rejected
/// has no derivation tree from the start symbol by its first alternative.
pub proof fn lemma_rejected_has_no_tree<T>(
    g: Seq<RuleModel<T>>,
    w: Seq<T>,
    start: T,
    c: Seq<Seq<EntryModel<T>>>,
)
    requires
        spec_plain(g),
        spec_rejects(g, w, start, c),
    ensures
        spec_underivable(g, w, start),
{
    match spec_accepting(g, w, start) {
        None => {},
        Some(s) => {
            assert forall|t: ParseTree<T>| !spec_derives(g, start, s.to, w, t) by {
                if spec_derives(g, start, s.to, w, t) {
                    lemma_chart_accepts(g, w, start, c, t);
                }
            }
        },
    }
}

} // verus!
