//! An Earley parser over the symbols of any grammar. It keeps, for each
//! item, the ways in which the item was derived, and hands back the shared
//! packed parse forest of an accepted sentence.

use std::fmt::Debug;
use std::hash::Hash;
use vstd::prelude::*;

verus! {

/// The text that `Debug` gives for a value. Calls `format!` with `{:?}`;
/// nothing is claimed of the text.
#[verifier::external_body]
pub(crate) fn debug_text<T: Debug>(value: &T) -> String {
    format!("{:?}", value)
}

/// A symbol of a grammar. Implementations say which symbol a sentence is
/// derived from, and tell two symbols apart.
pub trait GrammarTrait: Copy + Hash + PartialEq + Eq + Debug {
    /// The symbol from which every sentence is derived.
    fn start_sym() -> Self;

    /// Whether two symbols are the same.
    fn same(&self, other: &Self) -> (r: bool)
        ensures
            r == (*self == *other),
    ;

    /// The text that stands for the symbol in the node of a drawing.
    fn to_node_rep(&self, parent_sym: Option<Self>) -> String {
        debug_text(self)
    }
}

/// The alternatives of one nonterminal.
pub struct Rule<T: GrammarTrait> {
    pub left_hand: T,
    pub right_hand: Vec<Vec<T>>,
}

/// A rule as a value of sequences.
pub struct RuleModel<T> {
    pub left_hand: T,
    pub right_hand: Seq<Seq<T>>,
}

/// The views of a sequence of sequences of symbols.
pub open spec fn alternatives_view<T>(v: Seq<Vec<T>>) -> Seq<Seq<T>> {
    Seq::new(v.len(), |i: int| v[i]@)
}

impl<T: GrammarTrait> View for Rule<T> {
    type V = RuleModel<T>;

    open spec fn view(&self) -> RuleModel<T> {
        RuleModel { left_hand: self.left_hand, right_hand: alternatives_view(self.right_hand@) }
    }
}

/// A grammar: its rules in order. The start symbol is that of the symbol
/// type.
pub struct Grammar<T: GrammarTrait> {
    pub rules: Vec<Rule<T>>,
}

impl<T: GrammarTrait> View for Grammar<T> {
    type V = Seq<RuleModel<T>>;

    open spec fn view(&self) -> Seq<RuleModel<T>> {
        Seq::new(self.rules@.len(), |i: int| self.rules@[i]@)
    }
}

/// Whether some rule of `g` has `x` on its left.
pub open spec fn spec_is_nonterm<T>(g: Seq<RuleModel<T>>, x: T) -> bool {
    exists|r: int| 0 <= r < g.len() && (#[trigger] g[r]).left_hand == x
}

/// Whether `rhs` is an alternative of `lhs` in `g`.
pub open spec fn spec_has_rule<T>(g: Seq<RuleModel<T>>, lhs: T, rhs: Seq<T>) -> bool {
    exists|r: int, a: int|
        0 <= r < g.len() && 0 <= a < g[r].right_hand.len() && g[r].left_hand == lhs
            && #[trigger] g[r].right_hand[a] == rhs
}

/// The views of rules, in order.
pub open spec fn rules_view<T: GrammarTrait>(v: Seq<Rule<T>>) -> Seq<RuleModel<T>> {
    Seq::new(v.len(), |i: int| v[i]@)
}

/// Whether a rule has `lhs` on its left.
pub open spec fn spec_wanted<T>(lhs: T) -> spec_fn(RuleModel<T>) -> bool {
    |rule: RuleModel<T>| rule.left_hand == lhs
}

/// The rules of `g` that have `lhs` on their left, in order.
pub open spec fn spec_rules_of<T>(g: Seq<RuleModel<T>>, lhs: T) -> Seq<RuleModel<T>> {
    g.filter(spec_wanted(lhs))
}

/// The alternative by which a sentence is accepted: the first alternative
/// of the first rule of `start`.
pub open spec fn spec_start_alternative<T>(g: Seq<RuleModel<T>>, start: T) -> Option<Seq<T>> {
    let rules = spec_rules_of(g, start);
    if rules.len() > 0 && rules[0].right_hand.len() > 0 {
        Some(rules[0].right_hand[0])
    } else {
        None
    }
}

/// A copy of a sequence of symbols.
pub fn copy_syms<T: GrammarTrait>(v: &Vec<T>) -> (r: Vec<T>)
    ensures
        r@ == v@,
{
    let mut out: Vec<T> = Vec::new();
    let mut i: usize = 0;
    while i < v.len()
        invariant
            i <= v@.len(),
            out@ == v@.take(i as int),
        decreases v@.len() - i,
    {
        out.push(v[i]);
        assert(v@.take(i + 1) =~= v@.take(i as int).push(v@[i as int]));
        i = i + 1;
    }
    assert(v@.take(i as int) =~= v@);
    out
}

/// Whether two sequences hold the same symbols.
pub fn same_syms<T: GrammarTrait>(a: &Vec<T>, b: &Vec<T>) -> (r: bool)
    ensures
        r == (a@ == b@),
{
    if a.len() != b.len() {
        return false;
    }
    let mut i: usize = 0;
    while i < a.len()
        invariant
            i <= a@.len(),
            a@.len() == b@.len(),
            a@.take(i as int) == b@.take(i as int),
        decreases a@.len() - i,
    {
        if !a[i].same(&b[i]) {
            return false;
        }
        assert(a@.take(i + 1) =~= a@.take(i as int).push(a@[i as int]));
        assert(b@.take(i + 1) =~= b@.take(i as int).push(b@[i as int]));
        i = i + 1;
    }
    assert(a@.take(i as int) =~= a@);
    assert(b@.take(i as int) =~= b@);
    true
}

impl<T: GrammarTrait> Rule<T> {
    /// A copy of the rule.
    pub fn duplicate(&self) -> (r: Self)
        ensures
            r@ == self@,
    {
        let mut right_hand: Vec<Vec<T>> = Vec::new();
        let mut i: usize = 0;
        while i < self.right_hand.len()
            invariant
                i <= self.right_hand@.len(),
                alternatives_view(right_hand@) == alternatives_view(self.right_hand@).take(
                    i as int,
                ),
            decreases self.right_hand@.len() - i,
        {
            let alternative = copy_syms(&self.right_hand[i]);
            assert(alternatives_view(right_hand@.push(alternative)) =~= alternatives_view(
                right_hand@,
            ).push(alternative@));
            assert(alternatives_view(self.right_hand@).take(i as int).push(alternative@)
                =~= alternatives_view(self.right_hand@).take(i + 1));
            right_hand.push(alternative);
            i = i + 1;
        }
        assert(alternatives_view(self.right_hand@).take(i as int) =~= alternatives_view(
            self.right_hand@,
        ));
        Rule { left_hand: self.left_hand, right_hand }
    }
}

impl<T: GrammarTrait> Grammar<T> {
    /// The grammar of the given rules.
    pub fn new(rules: Vec<Rule<T>>) -> (r: Self)
        ensures
            r.rules == rules,
    {
        Self { rules }
    }

    /// The rules that have `lhs` on their left, in the order of the grammar.
    pub fn get_rules(&self, lhs: T) -> (r: Vec<Rule<T>>)
        ensures
            rules_view(r@) == spec_rules_of(self@, lhs),
    {
        let ghost wanted = spec_wanted(lhs);
        let mut found: Vec<Rule<T>> = Vec::new();
        let mut i: usize = 0;
        assert(self@.take(0) =~= Seq::<RuleModel<T>>::empty());
        assert(rules_view(found@) =~= Seq::<RuleModel<T>>::empty());
        while i < self.rules.len()
            invariant
                i <= self.rules@.len(),
                wanted == spec_wanted(lhs),
                rules_view(found@) == self@.take(i as int).filter(wanted),
            decreases self.rules@.len() - i,
        {
            let ghost before = rules_view(found@);
            proof {
                assert(self@.take(i + 1) =~= self@.take(i as int).push(self@[i as int]));
                assert(self@.take(i + 1).drop_last() =~= self@.take(i as int));
                reveal(Seq::filter);
            }
            if self.rules[i].left_hand.same(&lhs) {
                let rule = self.rules[i].duplicate();
                found.push(rule);
                assert(rules_view(found@) =~= before.push(self@[i as int]));
            }
            i = i + 1;
        }
        assert(self@.take(i as int) =~= self@);
        found
    }

    /// Whether some rule has `elem` on its left.
    pub fn is_nonterm(&self, elem: &T) -> (r: bool)
        ensures
            r == spec_is_nonterm(self@, *elem),
    {
        let mut i: usize = 0;
        while i < self.rules.len()
            invariant
                i <= self.rules@.len(),
                forall|r: int| 0 <= r < i ==> (#[trigger] self@[r]).left_hand != *elem,
            decreases self.rules@.len() - i,
        {
            if self.rules[i].left_hand.same(elem) {
                assert(self@[i as int].left_hand == *elem);
                return true;
            }
            i = i + 1;
        }
        false
    }
}

/// An Earley item: the alternative `to` of `from`, of which the first `idx`
/// symbols derive the symbols from `origin` to `end` of the sentence.
#[derive(Debug, Hash, PartialEq, Eq)]
pub struct EarleyState<T: GrammarTrait> {
    pub from: T,
    pub to: Vec<T>,
    pub origin: usize,
    pub end: usize,
    pub idx: usize,
}

/// An item as a value: what its identity is made of.
pub struct StateModel<T> {
    pub from: T,
    pub to: Seq<T>,
    pub origin: nat,
    pub end: nat,
    pub idx: nat,
}

impl<T: GrammarTrait> View for EarleyState<T> {
    type V = StateModel<T>;

    open spec fn view(&self) -> StateModel<T> {
        StateModel {
            from: self.from,
            to: self.to@,
            origin: self.origin as nat,
            end: self.end as nat,
            idx: self.idx as nat,
        }
    }
}

impl<T: GrammarTrait> Clone for EarleyState<T> {
    fn clone(&self) -> (r: Self)
        ensures
            r@ == self@,
    {
        EarleyState {
            from: self.from,
            to: copy_syms(&self.to),
            origin: self.origin,
            end: self.end,
            idx: self.idx,
        }
    }
}

/// How a symbol of an item came about: it was read from the sentence, the
/// symbol ending at `idx`, or it is an item that was completed.
#[derive(Debug, Hash, PartialEq, Eq)]
pub enum Derivation<T: GrammarTrait> {
    ScannedFrom { symbol: T, idx: usize },
    CompletedFrom { state: EarleyState<T> },
}

/// A derivation as a value.
pub enum DerivationModel<T> {
    ScannedFrom { symbol: T, idx: nat },
    CompletedFrom { state: StateModel<T> },
}

impl<T: GrammarTrait> View for Derivation<T> {
    type V = DerivationModel<T>;

    open spec fn view(&self) -> DerivationModel<T> {
        match self {
            Derivation::ScannedFrom { symbol, idx } => DerivationModel::ScannedFrom {
                symbol: *symbol,
                idx: *idx as nat,
            },
            Derivation::CompletedFrom { state } => DerivationModel::CompletedFrom { state: state@ },
        }
    }
}

impl<T: GrammarTrait> Clone for Derivation<T> {
    fn clone(&self) -> (r: Self)
        ensures
            r@ == self@,
    {
        match self {
            Derivation::ScannedFrom { symbol, idx } => Derivation::ScannedFrom {
                symbol: *symbol,
                idx: *idx,
            },
            Derivation::CompletedFrom { state } => Derivation::CompletedFrom {
                state: state.clone(),
            },
        }
    }
}

/// One way in which an item was derived: the item before its last step,
/// or the symbol read where that item had read nothing, and what made the
/// step.
#[derive(Debug, Hash, PartialEq, Eq)]
pub struct PackedNode<T: GrammarTrait> {
    pub left_child: Derivation<T>,
    pub right_child: Option<Derivation<T>>,
}

/// A packed node as a value.
pub struct PackedModel<T> {
    pub left_child: DerivationModel<T>,
    pub right_child: Option<DerivationModel<T>>,
}

impl<T: GrammarTrait> View for PackedNode<T> {
    type V = PackedModel<T>;

    open spec fn view(&self) -> PackedModel<T> {
        PackedModel {
            left_child: self.left_child@,
            right_child: match self.right_child {
                Some(d) => Some(d@),
                None => None,
            },
        }
    }
}

impl<T: GrammarTrait> Clone for PackedNode<T> {
    fn clone(&self) -> (r: Self)
        ensures
            r@ == self@,
    {
        PackedNode {
            left_child: self.left_child.clone(),
            right_child: match &self.right_child {
                Some(d) => Some(d.clone()),
                None => None,
            },
        }
    }
}

/// The ways in which one item was derived.
pub type Children<T> = Vec<PackedNode<T>>;

/// The views of packed nodes, in order.
pub open spec fn packed_view<T: GrammarTrait>(v: Seq<PackedNode<T>>) -> Seq<PackedModel<T>> {
    Seq::new(v.len(), |i: int| v[i]@)
}

/// A copy of a list of packed nodes.
pub fn copy_children<T: GrammarTrait>(v: &Children<T>) -> (r: Children<T>)
    ensures
        packed_view(r@) == packed_view(v@),
{
    let mut out: Vec<PackedNode<T>> = Vec::new();
    let mut i: usize = 0;
    while i < v.len()
        invariant
            i <= v@.len(),
            packed_view(out@) == packed_view(v@).take(i as int),
        decreases v@.len() - i,
    {
        let node = v[i].clone();
        assert(packed_view(out@.push(node)) =~= packed_view(out@).push(node@));
        assert(packed_view(v@).take(i + 1) =~= packed_view(v@).take(i as int).push(node@));
        out.push(node);
        i = i + 1;
    }
    assert(packed_view(v@).take(i as int) =~= packed_view(v@));
    out
}

impl<T: GrammarTrait> EarleyState<T> {
    /// Whether the item has matched all of its alternative.
    pub fn is_finished(&self) -> (r: bool)
        ensures
            r == (self.idx >= self.to@.len()),
    {
        self.idx >= self.to.len()
    }

    /// Whether two items are the same: the same symbol and alternative,
    /// the same origin, end and progress.
    pub fn same_state(&self, other: &Self) -> (r: bool)
        ensures
            r == (self@ == other@),
    {
        self.from.same(&other.from) && same_syms(&self.to, &other.to) && self.origin
            == other.origin && self.end == other.end && self.idx == other.idx
    }

    /// The item one step on, at `end`, and the packed node of that step:
    /// this item to the left, the item `completed` to the right.
    pub fn next(&self, completed: Self, end: usize) -> (r: (Self, Children<T>))
        requires
            self.idx < usize::MAX,
        ensures
            r.0@ == (StateModel { end: end as nat, idx: self@.idx + 1, ..self@ }),
            packed_view(r.1@) == seq![
                PackedModel {
                    left_child: DerivationModel::CompletedFrom { state: self@ },
                    right_child: Some(DerivationModel::CompletedFrom { state: completed@ }),
                },
            ],
    {
        let mut new: Vec<PackedNode<T>> = Vec::new();
        new.push(
            PackedNode {
                left_child: Derivation::CompletedFrom { state: self.clone() },
                right_child: Some(Derivation::CompletedFrom { state: completed }),
            },
        );
        assert(packed_view(new@) =~= seq![new@[0]@]);
        (
            EarleyState {
                from: self.from,
                to: copy_syms(&self.to),
                origin: self.origin,
                end,
                idx: self.idx + 1,
            },
            new,
        )
    }

    /// The item one step on, at `idx`, and the packed node of that step,
    /// made by reading `val`. Where the item had read nothing the node holds
    /// the symbol alone, else this item to the left and the symbol to the
    /// right.
    pub fn next_scanned(&self, val: T, idx: usize) -> (r: (Self, Children<T>))
        requires
            self.idx < usize::MAX,
        ensures
            r.0@ == (StateModel { end: idx as nat, idx: self@.idx + 1, ..self@ }),
            packed_view(r.1@) == seq![spec_scanned_node(self@, val, idx as nat)],
    {
        let mut new: Vec<PackedNode<T>> = Vec::new();
        if self.idx == 0 {
            new.push(
                PackedNode {
                    left_child: Derivation::ScannedFrom { symbol: val, idx },
                    right_child: None,
                },
            );
        } else {
            new.push(
                PackedNode {
                    left_child: Derivation::CompletedFrom { state: self.clone() },
                    right_child: Some(Derivation::ScannedFrom { symbol: val, idx }),
                },
            );
        }
        assert(packed_view(new@) =~= seq![new@[0]@]);
        (
            EarleyState {
                from: self.from,
                to: copy_syms(&self.to),
                origin: self.origin,
                end: idx,
                idx: self.idx + 1,
            },
            new,
        )
    }

    /// The symbol that the item expects next.
    pub fn elem(&self) -> (r: T)
        requires
            self.idx < self.to@.len(),
        ensures
            r == self.to@[self.idx as int],
    {
        self.to[self.idx]
    }
}

/// The packed node of a step that read `val`, the symbol ending at `idx`,
/// from the item `s`.
pub open spec fn spec_scanned_node<T>(s: StateModel<T>, val: T, idx: nat) -> PackedModel<T> {
    if s.idx == 0 {
        PackedModel {
            left_child: DerivationModel::ScannedFrom { symbol: val, idx },
            right_child: None,
        }
    } else {
        PackedModel {
            left_child: DerivationModel::CompletedFrom { state: s },
            right_child: Some(DerivationModel::ScannedFrom { symbol: val, idx }),
        }
    }
}

/// A derivation tree: a symbol of the sentence, or a nonterminal over the
/// trees of one of its alternatives.
pub enum ParseTree<T> {
    Leaf(T),
    Node(T, Seq<ParseTree<T>>),
}

/// The symbol at the root of a tree.
pub open spec fn tree_root<T>(t: ParseTree<T>) -> T {
    match t {
        ParseTree::Leaf(s) => s,
        ParseTree::Node(s, children) => s,
    }
}

/// The symbols at the roots of trees in a row.
pub open spec fn forest_roots<T>(f: Seq<ParseTree<T>>) -> Seq<T> {
    Seq::new(f.len(), |i: int| tree_root(f[i]))
}

/// The leaves of a tree, from left to right.
pub open spec fn tree_yield<T>(t: ParseTree<T>) -> Seq<T>
    decreases t,
{
    match t {
        ParseTree::Leaf(s) => seq![s],
        ParseTree::Node(s, children) => forest_yield(children),
    }
}

/// The leaves of trees in a row, from left to right.
pub open spec fn forest_yield<T>(f: Seq<ParseTree<T>>) -> Seq<T>
    decreases f,
{
    if f.len() == 0 {
        Seq::empty()
    } else {
        forest_yield(f.drop_last()) + tree_yield(f.last())
    }
}

/// Whether a tree follows the grammar: each leaf is a symbol that no rule
/// rewrites, and each node stands over the trees of one alternative of its
/// symbol.
pub open spec fn tree_valid<T>(g: Seq<RuleModel<T>>, t: ParseTree<T>) -> bool
    decreases t,
{
    match t {
        ParseTree::Leaf(s) => !spec_is_nonterm(g, s),
        ParseTree::Node(s, children) => {
            &&& spec_has_rule(g, s, forest_roots(children))
            &&& forall|i: int| 0 <= i < children.len() ==> tree_valid(g, #[trigger] children[i])
        },
    }
}

/// Whether the trees `f` show that the item `s` holds of the sentence `w`:
/// one tree for each symbol before the dot, each following the grammar,
/// whose leaves together are the symbols from the origin to the end.
pub open spec fn spec_witness<T>(
    g: Seq<RuleModel<T>>,
    w: Seq<T>,
    s: StateModel<T>,
    f: Seq<ParseTree<T>>,
) -> bool {
    &&& f.len() == s.idx
    &&& forall|i: int| 0 <= i < f.len() ==> tree_root(#[trigger] f[i]) == s.to[i]
    &&& forall|i: int| 0 <= i < f.len() ==> tree_valid(g, #[trigger] f[i])
    &&& forest_yield(f) == w.subrange(s.origin as int, s.end as int)
}

/// Whether the item `s` holds of the sentence `w`: it is an alternative of
/// the grammar, its positions lie in the sentence, and the symbols before
/// its dot derive the symbols from its origin to its end.
pub open spec fn spec_item_holds<T>(g: Seq<RuleModel<T>>, w: Seq<T>, s: StateModel<T>) -> bool {
    &&& spec_has_rule(g, s.from, s.to)
    &&& s.idx <= s.to.len()
    &&& s.origin <= s.end <= w.len()
    &&& exists|f: Seq<ParseTree<T>>| spec_witness(g, w, s, f)
}

/// An item that has matched nothing holds wherever it starts.
pub proof fn lemma_fresh_item_holds<T>(g: Seq<RuleModel<T>>, w: Seq<T>, s: StateModel<T>)
    requires
        spec_has_rule(g, s.from, s.to),
        s.idx == 0,
        s.origin == s.end,
        s.end <= w.len(),
    ensures
        spec_item_holds(g, w, s),
{
    let f = Seq::<ParseTree<T>>::empty();
    assert(forest_yield(f) =~= w.subrange(s.origin as int, s.end as int));
    assert(spec_witness(g, w, s, f));
}

/// An item that holds up to `k` and expects the symbol at `k`, which no
/// rule rewrites, holds one step on up to `k + 1`.
pub proof fn lemma_scanned_item_holds<T>(
    g: Seq<RuleModel<T>>,
    w: Seq<T>,
    s: StateModel<T>,
    next: StateModel<T>,
)
    requires
        spec_item_holds(g, w, s),
        s.idx < s.to.len(),
        s.end < w.len(),
        w[s.end as int] == s.to[s.idx as int],
        !spec_is_nonterm(g, w[s.end as int]),
        next == (StateModel { end: s.end + 1, idx: s.idx + 1, ..s }),
    ensures
        spec_item_holds(g, w, next),
{
    let f = choose|f: Seq<ParseTree<T>>| spec_witness(g, w, s, f);
    let leaf = ParseTree::Leaf(w[s.end as int]);
    let f2 = f.push(leaf);
    assert(f2.drop_last() =~= f);
    assert(forest_yield(f2) == forest_yield(f) + tree_yield(leaf));
    assert(tree_yield(leaf) == seq![w[s.end as int]]);
    assert(forest_yield(f2) =~= w.subrange(next.origin as int, next.end as int));
    assert(spec_witness(g, w, next, f2));
}

/// An item that holds up to `j` and expects a nonterminal holds one step
/// on up to `k` where a finished item of that nonterminal holds from `j`
/// to `k`.
pub proof fn lemma_completed_item_holds<T>(
    g: Seq<RuleModel<T>>,
    w: Seq<T>,
    s: StateModel<T>,
    done: StateModel<T>,
    next: StateModel<T>,
)
    requires
        spec_item_holds(g, w, s),
        spec_item_holds(g, w, done),
        s.idx < s.to.len(),
        done.idx == done.to.len(),
        done.origin == s.end,
        done.from == s.to[s.idx as int],
        next == (StateModel { end: done.end, idx: s.idx + 1, ..s }),
    ensures
        spec_item_holds(g, w, next),
{
    let f = choose|f: Seq<ParseTree<T>>| spec_witness(g, w, s, f);
    let inner = choose|f: Seq<ParseTree<T>>| spec_witness(g, w, done, f);
    let node = ParseTree::Node(done.from, inner);
    assert(forest_roots(inner) =~= done.to);
    assert(tree_valid(g, node));
    let f2 = f.push(node);
    assert(f2.drop_last() =~= f);
    assert(forest_yield(f2) == forest_yield(f) + tree_yield(node));
    assert(tree_yield(node) == forest_yield(inner));
    assert(forest_yield(f2) =~= w.subrange(next.origin as int, next.end as int));
    assert(spec_witness(g, w, next, f2));
}

/// A finished item of the start symbol that holds from the start of the
/// sentence to its end is a derivation tree of the sentence.
pub proof fn lemma_accepted_has_tree<T>(g: Seq<RuleModel<T>>, w: Seq<T>, s: StateModel<T>)
    requires
        spec_item_holds(g, w, s),
        s.idx == s.to.len(),
        s.origin == 0,
        s.end == w.len(),
    ensures
        exists|t: ParseTree<T>| spec_derives(g, s.from, s.to, w, t),
{
    let f = choose|f: Seq<ParseTree<T>>| spec_witness(g, w, s, f);
    let t = ParseTree::Node(s.from, f);
    assert(forest_roots(f) =~= s.to);
    assert(w.subrange(0, w.len() as int) =~= w);
    assert(spec_derives(g, s.from, s.to, w, t));
}

/// Whether `t` is a derivation tree of the sentence `w` from `start` by its
/// alternative `rhs`: it follows the grammar, its root is `start` over the
/// symbols of `rhs`, and its leaves, from left to right, are `w`.
pub open spec fn spec_derives<T>(
    g: Seq<RuleModel<T>>,
    start: T,
    rhs: Seq<T>,
    w: Seq<T>,
    t: ParseTree<T>,
) -> bool {
    &&& tree_valid(g, t)
    &&& t matches ParseTree::Node(s, children) && s == start && forest_roots(children) == rhs
    &&& tree_yield(t) == w
}

/// The items that end at one position, each with the ways in which it was
/// derived. No item stands in it twice.
pub type States<T> = Vec<(EarleyState<T>, Children<T>)>;

/// An entry of a set of items as a value: the item and its packed nodes.
pub type EntryModel<T> = (StateModel<T>, Seq<PackedModel<T>>);

/// The views of the entries of a set of items, in order.
pub open spec fn states_view<T: GrammarTrait>(
    v: Seq<(EarleyState<T>, Children<T>)>,
) -> Seq<EntryModel<T>> {
    Seq::new(v.len(), |i: int| (v[i].0@, packed_view(v[i].1@)))
}

/// The first place of the item `s` in `v`.
pub open spec fn spec_find<T>(v: Seq<EntryModel<T>>, s: StateModel<T>) -> Option<int>
    decreases v.len(),
{
    if v.len() == 0 {
        None
    } else {
        match spec_find(v.drop_last(), s) {
            Some(i) => Some(i),
            None => if v.last().0 == s {
                Some(v.len() - 1)
            } else {
                None
            },
        }
    }
}

/// The place that is found for an item holds the item, and no place
/// before it does; where none is found, no place holds the item.
pub proof fn lemma_find<T>(v: Seq<EntryModel<T>>, s: StateModel<T>)
    ensures
        match spec_find(v, s) {
            Some(i) => 0 <= i < v.len() && v[i].0 == s && forall|j: int|
                0 <= j < i ==> (#[trigger] v[j]).0 != s,
            None => forall|j: int| 0 <= j < v.len() ==> (#[trigger] v[j]).0 != s,
        },
    decreases v.len(),
{
    if v.len() > 0 {
        lemma_find(v.drop_last(), s);
        assert(forall|j: int| 0 <= j < v.len() - 1 ==> v[j] == v.drop_last()[j]);
    }
}

/// Whether no item stands twice in `v`.
pub open spec fn spec_distinct<T>(v: Seq<EntryModel<T>>) -> bool {
    forall|i: int, j: int|
        0 <= i < v.len() && 0 <= j < v.len() && i != j ==> (#[trigger] v[i]).0 != (
        #[trigger] v[j]).0
}

/// The set `v` after the item `s` was merged into it with the packed nodes
/// `nodes`: where `v` holds `s`, the nodes are added behind those it has,
/// else `s` comes last with the nodes.
pub open spec fn spec_merge<T>(
    v: Seq<EntryModel<T>>,
    s: StateModel<T>,
    nodes: Seq<PackedModel<T>>,
) -> Seq<EntryModel<T>> {
    match spec_find(v, s) {
        Some(i) => v.update(i, (s, v[i].1 + nodes)),
        None => v.push((s, nodes)),
    }
}

/// The place of an item in a set.
pub fn find_item<T: GrammarTrait>(set: &States<T>, item: &EarleyState<T>) -> (r: Option<usize>)
    ensures
        match r {
            Some(i) => spec_find(states_view(set@), item@) == Some(i as int),
            None => spec_find(states_view(set@), item@) is None,
        },
{
    let mut i: usize = 0;
    while i < set.len()
        invariant
            i <= set@.len(),
            forall|j: int| 0 <= j < i ==> (#[trigger] states_view(set@)[j]).0 != item@,
        decreases set@.len() - i,
    {
        if set[i].0.same_state(item) {
            proof {
                assert(states_view(set@)[i as int].0 == item@);
                lemma_find(states_view(set@), item@);
            }
            return Some(i);
        }
        assert(states_view(set@)[i as int].0 != item@);
        i = i + 1;
    }
    proof {
        lemma_find(states_view(set@), item@);
    }
    None
}

/// Merges an item into a set: where the set holds it, the packed nodes are
/// added behind those it has; else the item is added last with these nodes.
/// Tells whether the item was new.
pub fn merge_item<T: GrammarTrait>(
    set: &mut States<T>,
    item: EarleyState<T>,
    children: Children<T>,
) -> (added: bool)
    ensures
        added == (spec_find(states_view(old(set)@), item@) is None),
        states_view(final(set)@) == spec_merge(
            states_view(old(set)@),
            item@,
            packed_view(children@),
        ),
{
    let ghost before = states_view(set@);
    match find_item(set, &item) {
        Some(i) => {
            let mut more = children;
            proof {
                lemma_find(before, item@);
            }
            let ghost had = set@[i as int].1@;
            let ghost new = more@;
            set[i].1.append(&mut more);
            proof {
                assert(packed_view(had + new) =~= packed_view(had) + packed_view(new));
                assert(states_view(set@) =~= before.update(
                    i as int,
                    (item@, before[i as int].1 + packed_view(new)),
                ));
            }
            false
        },
        None => {
            proof {
                assert(states_view(set@.push((item, children))) =~= before.push(
                    (item@, packed_view(children@)),
                ));
            }
            set.push((item, children));
            true
        },
    }
}

/// What a merge keeps and what it adds.
pub proof fn lemma_merge<T>(v: Seq<EntryModel<T>>, s: StateModel<T>, nodes: Seq<PackedModel<T>>)
    ensures
        forall|x: int| 0 <= x < v.len() ==> (#[trigger] spec_merge(v, s, nodes)[x]).0 == v[x].0,
        spec_find(v, s) is Some ==> spec_merge(v, s, nodes).len() == v.len(),
        spec_find(v, s) is None ==> spec_merge(v, s, nodes) == v.push((s, nodes)),
        spec_find(spec_merge(v, s, nodes), s) is Some,
        spec_distinct(v) ==> spec_distinct(spec_merge(v, s, nodes)),
{
    lemma_find(v, s);
    let m = spec_merge(v, s, nodes);
    lemma_find(m, s);
    match spec_find(v, s) {
        Some(i) => {
            assert(m[i].0 == s);
        },
        None => {
            assert(m[v.len() as int].0 == s);
        },
    }
}

/// The item `s` one step back, up to `end`.
pub open spec fn spec_before<T>(s: StateModel<T>, end: nat) -> StateModel<T> {
    StateModel { end, idx: (s.idx - 1) as nat, ..s }
}

/// Whether `node` is the packed node of the step that reads the last symbol
/// of the sentence `w` before the end of `s`, a symbol that no rule
/// rewrites, and so yields `s`.
pub open spec fn spec_scan_step<T>(
    g: Seq<RuleModel<T>>,
    w: Seq<T>,
    s: StateModel<T>,
    node: PackedModel<T>,
) -> bool {
    &&& 1 <= s.idx <= s.to.len()
    &&& 1 <= s.end <= w.len()
    &&& s.to[s.idx - 1] == w[s.end - 1]
    &&& !spec_is_nonterm(g, w[s.end - 1])
    &&& node == spec_scanned_node(spec_before(s, (s.end - 1) as nat), w[s.end - 1], s.end)
}

/// The packed node of the step that takes the item `p` over the finished
/// item `d`.
pub open spec fn spec_completed_node<T>(p: StateModel<T>, d: StateModel<T>) -> PackedModel<T> {
    PackedModel {
        left_child: DerivationModel::CompletedFrom { state: p },
        right_child: Some(DerivationModel::CompletedFrom { state: d }),
    }
}

/// Whether the step that takes the item `p` over the item `d` yields `s`:
/// `p` is `s` one step back, and `d` is a finished item of the symbol
/// that `p` expects, from the end of `p` to the end of `s`.
pub open spec fn spec_completes_to<T>(
    s: StateModel<T>,
    p: StateModel<T>,
    d: StateModel<T>,
) -> bool {
    &&& 1 <= s.idx <= s.to.len()
    &&& p == spec_before(s, p.end)
    &&& d.idx == d.to.len()
    &&& d.from == s.to[s.idx - 1]
    &&& d.origin == p.end
    &&& d.end == s.end
}

/// Whether `node` is the packed node of a step over a finished item that
/// yields `s`.
pub open spec fn spec_completion_step<T>(s: StateModel<T>, node: PackedModel<T>) -> bool {
    match node.left_child {
        DerivationModel::CompletedFrom { state: p } => match node.right_child {
            Some(DerivationModel::CompletedFrom { state: d }) => spec_completes_to(s, p, d),
            _ => false,
        },
        DerivationModel::ScannedFrom { symbol, idx } => false,
    }
}

/// Whether `node` is the packed node of a step that yields `s`: one that
/// reads a symbol of the sentence, or one over a finished item.
pub open spec fn spec_step<T>(
    g: Seq<RuleModel<T>>,
    w: Seq<T>,
    s: StateModel<T>,
    node: PackedModel<T>,
) -> bool {
    spec_scan_step(g, w, s, node) || spec_completion_step(s, node)
}

/// Whether the packed nodes of an entry are sound: each is the node of a
/// step that yields the item, none stands there twice, and an item that
/// has matched a symbol has one at least.
pub open spec fn spec_entry_ok<T>(g: Seq<RuleModel<T>>, w: Seq<T>, e: EntryModel<T>) -> bool {
    &&& e.0.idx >= 1 ==> e.1.len() >= 1
    &&& forall|y: int| 0 <= y < e.1.len() ==> spec_step(g, w, e.0, #[trigger] e.1[y])
    &&& e.1.no_duplicates()
}

/// Whether the item `s` has none of the packed nodes `nodes` in the set
/// `v`.
pub open spec fn spec_fits<T>(
    v: Seq<EntryModel<T>>,
    s: StateModel<T>,
    nodes: Seq<PackedModel<T>>,
) -> bool {
    forall|x: int, y: int|
        0 <= x < v.len() && (#[trigger] v[x]).0 == s && 0 <= y < nodes.len() ==> !v[x].1.contains(
            #[trigger] nodes[y],
        )
}

/// The views of the sets of a chart, in order.
pub open spec fn chart_view<T: GrammarTrait>(chart: Seq<States<T>>) -> Seq<Seq<EntryModel<T>>> {
    Seq::new(chart.len(), |j: int| states_view(chart[j]@))
}

/// Whether `v` is a sound set of items for position `j` of the sentence
/// `w`: no item stands in it twice, each item ends at `j` and holds, and
/// the packed nodes of each are sound.
pub open spec fn spec_set_ok<T>(
    g: Seq<RuleModel<T>>,
    w: Seq<T>,
    v: Seq<EntryModel<T>>,
    j: int,
) -> bool {
    &&& spec_distinct(v)
    &&& forall|x: int|
        0 <= x < v.len() ==> (#[trigger] v[x]).0.end == j && spec_item_holds(g, w, v[x].0)
    &&& forall|x: int| 0 <= x < v.len() ==> spec_entry_ok(g, w, #[trigger] v[x])
}

/// Whether `c` is a sound chart for the sentence `w`: one sound set for
/// each position from 0 to the length of `w`.
pub open spec fn spec_chart_ok<T>(
    g: Seq<RuleModel<T>>,
    w: Seq<T>,
    c: Seq<Seq<EntryModel<T>>>,
) -> bool {
    &&& c.len() == w.len() + 1
    &&& forall|j: int| 0 <= j < c.len() ==> spec_set_ok(g, w, #[trigger] c[j], j)
}

/// Merging an item that holds into a sound set leaves the set sound.
pub proof fn lemma_merge_keeps_ok<T>(
    g: Seq<RuleModel<T>>,
    w: Seq<T>,
    v: Seq<EntryModel<T>>,
    j: int,
    s: StateModel<T>,
    nodes: Seq<PackedModel<T>>,
)
    requires
        spec_set_ok(g, w, v, j),
        s.end == j,
        spec_item_holds(g, w, s),
        spec_entry_ok(g, w, (s, nodes)),
        spec_fits(v, s, nodes),
    ensures
        spec_set_ok(g, w, spec_merge(v, s, nodes), j),
{
    lemma_merge(v, s, nodes);
    lemma_find(v, s);
    let m = spec_merge(v, s, nodes);
    assert forall|x: int| 0 <= x < m.len() implies (#[trigger] m[x]).0.end == j
        && spec_item_holds(g, w, m[x].0) by {
        if x < v.len() {
            assert(m[x].0 == v[x].0);
        }
    }
    assert forall|x: int| 0 <= x < m.len() implies spec_entry_ok(g, w, #[trigger] m[x]) by {
        if x < v.len() && m[x] != v[x] {
            assert(spec_entry_ok(g, w, v[x]));
            assert(m[x] == (s, v[x].1 + nodes));
            assert forall|y: int| 0 <= y < m[x].1.len() implies spec_step(
                g,
                w,
                m[x].0,
                #[trigger] m[x].1[y],
            ) by {
                assert(m[x].0 == s && v[x].0 == s);
                if y < v[x].1.len() {
                    assert(m[x].1[y] == v[x].1[y]);
                    assert(spec_step(g, w, v[x].0, v[x].1[y]));
                } else {
                    let k = y - v[x].1.len();
                    assert(m[x].1[y] == nodes[k]);
                    assert((s, nodes).1[k] == nodes[k]);
                    assert(spec_step(g, w, (s, nodes).0, (s, nodes).1[k]));
                }
            }
            assert forall|a: int, b: int|
                0 <= a < m[x].1.len() && 0 <= b < m[x].1.len() && a != b implies m[x].1[a]
                != m[x].1[b] by {
                let had = v[x].1.len();
                if a < had && b < had {
                    assert(m[x].1[a] == v[x].1[a] && m[x].1[b] == v[x].1[b]);
                } else if a >= had && b >= had {
                    assert(m[x].1[a] == nodes[a - had] && m[x].1[b] == nodes[b - had]);
                    assert((s, nodes).1.no_duplicates());
                } else if a < had {
                    assert(m[x].1[a] == v[x].1[a] && m[x].1[b] == nodes[b - had]);
                    assert(!v[x].1.contains(nodes[b - had]));
                } else {
                    assert(m[x].1[b] == v[x].1[b] && m[x].1[a] == nodes[a - had]);
                    assert(!v[x].1.contains(nodes[a - had]));
                }
            }
        } else if x < v.len() {
            assert(spec_entry_ok(g, w, v[x]));
        }
    }
}

/// Whether the chart `c` holds the item `s`, in the set of its end.
pub open spec fn spec_present<T>(c: Seq<Seq<EntryModel<T>>>, s: StateModel<T>) -> bool {
    s.end < c.len() && spec_find(c[s.end as int], s) is Some
}

/// Whether the chart holds what a derivation stands for, where that is an
/// item.
pub open spec fn spec_derivation_present<T>(
    c: Seq<Seq<EntryModel<T>>>,
    d: DerivationModel<T>,
) -> bool {
    match d {
        DerivationModel::CompletedFrom { state } => spec_present(c, state),
        DerivationModel::ScannedFrom { symbol, idx } => true,
    }
}

/// Whether the chart holds the items that packed nodes stand on.
pub open spec fn spec_nodes_present<T>(
    c: Seq<Seq<EntryModel<T>>>,
    nodes: Seq<PackedModel<T>>,
) -> bool {
    forall|y: int|
        0 <= y < nodes.len() ==> spec_derivation_present(c, (#[trigger] nodes[y]).left_child) && (
        nodes[y].right_child matches Some(d) ==> spec_derivation_present(c, d))
}

/// Whether the chart holds the alternative of the item `s` as an item that
/// starts where `s` starts and has matched nothing.
pub open spec fn spec_rooted<T>(c: Seq<Seq<EntryModel<T>>>, s: StateModel<T>) -> bool {
    spec_present(c, spec_fresh(s.from, s.to, s.origin))
}

/// Whether a chart is closed: it holds every item that one of its packed
/// nodes stands on, and for each of its items the item of that alternative
/// that starts at the same place and has matched nothing.
pub open spec fn spec_chart_closed<T>(c: Seq<Seq<EntryModel<T>>>) -> bool {
    forall|j: int, x: int|
        0 <= j < c.len() && 0 <= x < c[j].len() ==> spec_nodes_present(c, (#[trigger] c[j][x]).1)
            && spec_rooted(c, c[j][x].0)
}

proof fn lemma_grows_keeps_present<T>(
    a: Seq<Seq<EntryModel<T>>>,
    b: Seq<Seq<EntryModel<T>>>,
    nodes: Seq<PackedModel<T>>,
)
    requires
        spec_chart_grows(a, b),
        spec_nodes_present(a, nodes),
    ensures
        spec_nodes_present(b, nodes),
{
    assert forall|y: int| 0 <= y < nodes.len() implies spec_derivation_present(
        b,
        (#[trigger] nodes[y]).left_child,
    ) && (nodes[y].right_child matches Some(d) ==> spec_derivation_present(b, d)) by {
        match nodes[y].left_child {
            DerivationModel::CompletedFrom { state } => {
                lemma_kept_found(a, b, state.end as int);
            },
            DerivationModel::ScannedFrom { symbol, idx } => {},
        }
        match nodes[y].right_child {
            Some(DerivationModel::CompletedFrom { state }) => {
                lemma_kept_found(a, b, state.end as int);
            },
            _ => {},
        }
    }
}

proof fn lemma_merge_keeps_closed<T>(
    c: Seq<Seq<EntryModel<T>>>,
    k: int,
    s: StateModel<T>,
    nodes: Seq<PackedModel<T>>,
)
    requires
        spec_chart_closed(c),
        0 <= k < c.len(),
        spec_nodes_present(c, nodes),
        s.end == k,
        spec_rooted(c, s) || s == spec_fresh(s.from, s.to, s.origin),
    ensures
        spec_chart_closed(c.update(k, spec_merge(c[k], s, nodes))),
{
    let after = c.update(k, spec_merge(c[k], s, nodes));
    lemma_merge_grows(c, k, s, nodes);
    lemma_merge(c[k], s, nodes);
    lemma_find(c[k], s);
    assert forall|j: int, x: int| 0 <= j < after.len() && 0 <= x < after[j].len() implies
        spec_nodes_present(after, (#[trigger] after[j][x]).1) && spec_rooted(
        after,
        after[j][x].0,
    ) by {
        if j == k && x >= c[k].len() {
            assert(after[j][x].0 == s);
            if spec_rooted(c, s) {
                lemma_present_stays(c, after, spec_fresh(s.from, s.to, s.origin));
            }
        } else {
            assert(after[j][x].0 == c[j][x].0);
            assert(spec_rooted(c, c[j][x].0));
            lemma_present_stays(
                c,
                after,
                spec_fresh(c[j][x].0.from, c[j][x].0.to, c[j][x].0.origin),
            );
        }
        let had = if j == k && x >= c[k].len() {
            Seq::<PackedModel<T>>::empty()
        } else {
            c[j][x].1
        };
        assert(spec_nodes_present(c, had));
        lemma_grows_keeps_present(c, after, had);
        lemma_grows_keeps_present(c, after, nodes);
        if after[j][x].1 != had {
            assert(after[j][x].1 == had + nodes);
            assert forall|y: int| 0 <= y < (had + nodes).len() implies spec_derivation_present(
                after,
                (#[trigger] (had + nodes)[y]).left_child,
            ) && ((had + nodes)[y].right_child matches Some(d) ==> spec_derivation_present(
                after,
                d,
            )) by {
                if y < had.len() {
                    assert((had + nodes)[y] == had[y]);
                } else {
                    assert((had + nodes)[y] == nodes[y - had.len()]);
                }
            }
        }
    }
}

/// Merges an item into the set at `k` of a chart.
fn merge_into<T: GrammarTrait>(
    states: &mut Vec<States<T>>,
    k: usize,
    item: EarleyState<T>,
    children: Children<T>,
    Ghost(g): Ghost<Seq<RuleModel<T>>>,
    Ghost(w): Ghost<Seq<T>>,
) -> (added: bool)
    requires
        spec_chart_ok(g, w, chart_view(old(states)@)),
        spec_chart_closed(chart_view(old(states)@)),
        spec_nodes_present(chart_view(old(states)@), packed_view(children@)),
        k < old(states)@.len(),
        item@.end == k,
        spec_item_holds(g, w, item@),
        spec_entry_ok(g, w, (item@, packed_view(children@))),
        spec_fits(chart_view(old(states)@)[k as int], item@, packed_view(children@)),
        spec_rooted(chart_view(old(states)@), item@) || item@ == spec_fresh(
            item@.from,
            item@.to,
            item@.origin,
        ),
    ensures
        spec_chart_ok(g, w, chart_view(final(states)@)),
        spec_chart_closed(chart_view(final(states)@)),
        chart_view(final(states)@) == chart_view(old(states)@).update(
            k as int,
            spec_merge(chart_view(old(states)@)[k as int], item@, packed_view(children@)),
        ),
        added == (spec_find(chart_view(old(states)@)[k as int], item@) is None),
{
    let ghost before = chart_view(states@);
    let added = merge_item(&mut states[k], item, children);
    proof {
        let after = before.update(
            k as int,
            spec_merge(before[k as int], item@, packed_view(children@)),
        );
        assert(chart_view(states@) =~= after);
        lemma_merge_keeps_ok(g, w, before[k as int], k as int, item@, packed_view(children@));
        lemma_merge_keeps_closed(before, k as int, item@, packed_view(children@));
        assert forall|j: int| 0 <= j < after.len() implies spec_set_ok(
            g,
            w,
            #[trigger] after[j],
            j,
        ) by {
            if j != k {
                assert(after[j] == before[j]);
            }
        }
    }
    added
}

/// Whether `m` bounds the sizes of the grammar: the number of its rules, of
/// the alternatives of each rule, and of the symbols of each alternative.
pub open spec fn spec_grammar_bound<T>(g: Seq<RuleModel<T>>, m: nat) -> bool {
    &&& g.len() <= m
    &&& forall|r: int| 0 <= r < g.len() ==> (#[trigger] g[r]).right_hand.len() <= m
    &&& forall|r: int, a: int|
        0 <= r < g.len() && 0 <= a < g[r].right_hand.len() ==> (
        #[trigger] g[r].right_hand[a]).len() <= m
}

proof fn lemma_alternatives_bound<T>(alts: Seq<Seq<T>>) -> (m: nat)
    ensures
        alts.len() <= m,
        forall|a: int| 0 <= a < alts.len() ==> (#[trigger] alts[a]).len() <= m,
    decreases alts.len(),
{
    if alts.len() == 0 {
        0
    } else {
        let rest = lemma_alternatives_bound(alts.drop_last());
        let m = if rest + 1 >= alts.last().len() {
            rest + 1
        } else {
            alts.last().len()
        };
        assert forall|a: int| 0 <= a < alts.len() implies (#[trigger] alts[a]).len() <= m by {
            if a < alts.len() - 1 {
                assert(alts[a] == alts.drop_last()[a]);
            }
        }
        m
    }
}

/// Every grammar has a bound on its sizes.
pub proof fn lemma_grammar_bound<T>(g: Seq<RuleModel<T>>) -> (m: nat)
    ensures
        spec_grammar_bound(g, m),
    decreases g.len(),
{
    if g.len() == 0 {
        0
    } else {
        let rest = lemma_grammar_bound(g.drop_last());
        let last = lemma_alternatives_bound(g.last().right_hand);
        let m = if rest + 1 >= last {
            rest + 1
        } else {
            last
        };
        assert forall|r: int| 0 <= r < g.len() implies (#[trigger] g[r]).right_hand.len()
            <= m by {
            if r < g.len() - 1 {
                assert(g[r] == g.drop_last()[r]);
            }
        }
        assert forall|r: int, a: int|
            0 <= r < g.len() && 0 <= a < g[r].right_hand.len() implies (
        #[trigger] g[r].right_hand[a]).len() <= m by {
            if r < g.len() - 1 {
                assert(g[r] == g.drop_last()[r]);
                assert(g.drop_last()[r].right_hand[a].len() <= rest);
            }
        }
        m
    }
}

/// Whether `p` is a place of the alternative of the item `s` in `g`: a
/// rule and one of its alternatives.
pub open spec fn spec_is_place<T>(g: Seq<RuleModel<T>>, s: StateModel<T>, p: (int, int)) -> bool {
    &&& 0 <= p.0 < g.len()
    &&& 0 <= p.1 < g[p.0].right_hand.len()
    &&& g[p.0].left_hand == s.from
    &&& g[p.0].right_hand[p.1] == s.to
}

/// A number that stands for an item that ends at `k`, for a grammar whose
/// sizes `m` bounds: no two such items have the same.
pub open spec fn spec_code<T>(g: Seq<RuleModel<T>>, m: nat, k: int, s: StateModel<T>) -> int {
    let p = choose|p: (int, int)| spec_is_place(g, s, p);
    ((p.0 * (m + 1) + p.1) * (m + 1) + s.idx) * (k + 1) + s.origin
}

/// How many items can end at `k`, at most.
pub open spec fn spec_cells(m: nat, k: int) -> int {
    (m + 1) * (m + 1) * (m + 1) * (k + 1)
}

proof fn lemma_digits(x1: int, y1: int, x2: int, y2: int, base: int)
    requires
        0 <= y1 < base,
        0 <= y2 < base,
        x1 * base + y1 == x2 * base + y2,
    ensures
        x1 == x2,
        y1 == y2,
{
    assert(x1 == x2) by (nonlinear_arith)
        requires
            0 <= y1 < base,
            0 <= y2 < base,
            x1 * base + y1 == x2 * base + y2,
    {
        if x1 > x2 {
            assert((x1 - x2) * base >= base);
        } else if x1 < x2 {
            assert((x2 - x1) * base >= base);
        }
    }
}

proof fn lemma_code_range(a: int, b: int, c: int, d: int, m: int, n: int)
    requires
        0 <= a < m,
        0 <= b < m,
        0 <= c < m,
        0 <= d < n,
    ensures
        0 <= ((a * m + b) * m + c) * n + d < m * m * m * n,
{
    assert(0 <= a * m + b < m * m) by (nonlinear_arith)
        requires
            0 <= a < m,
            0 <= b < m,
    {
        assert(a * m <= (m - 1) * m);
    }
    let x = a * m + b;
    assert(0 <= x * m + c < m * m * m) by (nonlinear_arith)
        requires
            0 <= x < m * m,
            0 <= c < m,
    {
        assert(x * m <= (m * m - 1) * m);
    }
    let y = x * m + c;
    assert(0 <= y * n + d < m * m * m * n) by (nonlinear_arith)
        requires
            0 <= y < m * m * m,
            0 <= d < n,
    {
        assert(y * n <= (m * m * m - 1) * n);
    }
}

/// Whether the item `s` can stand in the set of position `k`.
pub open spec fn spec_is_cell<T>(g: Seq<RuleModel<T>>, k: int, s: StateModel<T>) -> bool {
    &&& spec_has_rule(g, s.from, s.to)
    &&& s.idx <= s.to.len()
    &&& s.origin <= s.end == k
}

proof fn lemma_code<T>(g: Seq<RuleModel<T>>, m: nat, k: int, s: StateModel<T>)
    requires
        spec_grammar_bound(g, m),
        spec_is_cell(g, k, s),
    ensures
        0 <= spec_code(g, m, k, s) < spec_cells(m, k),
        spec_is_place(g, s, choose|p: (int, int)| spec_is_place(g, s, p)),
{
    let (r, a) = choose|r: int, a: int|
        0 <= r < g.len() && 0 <= a < g[r].right_hand.len() && g[r].left_hand == s.from
            && #[trigger] g[r].right_hand[a] == s.to;
    assert(spec_is_place(g, s, (r, a)));
    let p = choose|p: (int, int)| spec_is_place(g, s, p);
    assert(g[p.0].right_hand[p.1].len() <= m);
    lemma_code_range(p.0, p.1, s.idx as int, s.origin as int, (m + 1) as int, k + 1);
}

proof fn lemma_code_tells<T>(
    g: Seq<RuleModel<T>>,
    m: nat,
    k: int,
    s: StateModel<T>,
    t: StateModel<T>,
)
    requires
        spec_grammar_bound(g, m),
        spec_is_cell(g, k, s),
        spec_is_cell(g, k, t),
        spec_code(g, m, k, s) == spec_code(g, m, k, t),
    ensures
        s == t,
{
    lemma_code(g, m, k, s);
    lemma_code(g, m, k, t);
    let p = choose|p: (int, int)| spec_is_place(g, s, p);
    let q = choose|p: (int, int)| spec_is_place(g, t, p);
    assert(g[p.0].right_hand[p.1].len() <= m);
    assert(g[q.0].right_hand[q.1].len() <= m);
    let b = (m + 1) as int;
    lemma_digits(
        (p.0 * b + p.1) * b + s.idx,
        s.origin as int,
        (q.0 * b + q.1) * b + t.idx,
        t.origin as int,
        k + 1,
    );
    lemma_digits(p.0 * b + p.1, s.idx as int, q.0 * b + q.1, t.idx as int, b);
    lemma_digits(p.0, p.1, q.0, q.1, b);
}

/// A sound set of items for position `k` holds no more items than can end
/// at `k`.
pub proof fn lemma_set_len<T>(
    g: Seq<RuleModel<T>>,
    w: Seq<T>,
    m: nat,
    v: Seq<EntryModel<T>>,
    k: int,
)
    requires
        spec_grammar_bound(g, m),
        spec_set_ok(g, w, v, k),
        0 <= k,
    ensures
        v.len() <= spec_cells(m, k),
{
    let codes = Seq::new(v.len(), |x: int| spec_code(g, m, k, v[x].0));
    assert forall|x: int, y: int|
        0 <= x < codes.len() && 0 <= y < codes.len() && x != y implies codes[x] != codes[y] by {
        if codes[x] == codes[y] {
            lemma_code_tells(g, m, k, v[x].0, v[y].0);
        }
    }
    codes.unique_seq_to_set();
    assert(spec_cells(m, k) >= 0) by (nonlinear_arith)
        requires
            m >= 0,
            k >= 0,
    ;
    vstd::set_lib::lemma_int_range(0, spec_cells(m, k));
    assert forall|c: int| codes.to_set().contains(c) implies vstd::set_lib::set_int_range(
        0,
        spec_cells(m, k),
    ).contains(c) by {
        let x = choose|x: int| 0 <= x < codes.len() && codes[x] == c;
        lemma_code(g, m, k, v[x].0);
    }
    vstd::set_lib::lemma_len_subset(
        codes.to_set(),
        vstd::set_lib::set_int_range(0, spec_cells(m, k)),
    );
}

/// Whether the packed nodes `b` are the packed nodes `a`, maybe with more
/// behind them.
pub open spec fn spec_extends<T>(a: Seq<PackedModel<T>>, b: Seq<PackedModel<T>>) -> bool {
    &&& a.len() <= b.len()
    &&& forall|y: int| 0 <= y < a.len() ==> #[trigger] b[y] == a[y]
}

/// Whether the chart holds the item `s` with `node` among its packed nodes.
pub open spec fn spec_holds_node<T>(
    c: Seq<Seq<EntryModel<T>>>,
    s: StateModel<T>,
    node: PackedModel<T>,
) -> bool {
    s.end < c.len() && match spec_find(c[s.end as int], s) {
        Some(x) => c[s.end as int][x].1.contains(node),
        None => false,
    }
}

/// Whether the chart `b` is the chart `a` grown: the same number of sets,
/// and in each set the items of `a`, in their places, each with its packed
/// nodes and maybe more behind them, and maybe more items behind them.
pub open spec fn spec_chart_grows<T>(
    a: Seq<Seq<EntryModel<T>>>,
    b: Seq<Seq<EntryModel<T>>>,
) -> bool {
    &&& a.len() == b.len()
    &&& forall|j: int| 0 <= j < a.len() ==> (#[trigger] a[j]).len() <= b[j].len()
    &&& forall|j: int, x: int|
        0 <= j < a.len() && 0 <= x < a[j].len() ==> (#[trigger] b[j][x]).0 == a[j][x].0
            && spec_extends(a[j][x].1, b[j][x].1)
}

proof fn lemma_merge_grows<T>(
    c: Seq<Seq<EntryModel<T>>>,
    k: int,
    s: StateModel<T>,
    nodes: Seq<PackedModel<T>>,
)
    requires
        0 <= k < c.len(),
    ensures
        spec_chart_grows(c, c.update(k, spec_merge(c[k], s, nodes))),
{
    lemma_merge(c[k], s, nodes);
    lemma_find(c[k], s);
    let after = c.update(k, spec_merge(c[k], s, nodes));
    assert forall|j: int, x: int| 0 <= j < c.len() && 0 <= x < c[j].len() implies (
    #[trigger] after[j][x]).0 == c[j][x].0 && spec_extends(c[j][x].1, after[j][x].1) by {
        if j == k && after[j][x] != c[j][x] {
            assert(after[j][x].1 == c[j][x].1 + nodes);
        }
    }
}

/// The item `s` one step on, up to `end`.
pub open spec fn spec_advanced<T>(s: StateModel<T>, end: nat) -> StateModel<T> {
    StateModel { end, idx: s.idx + 1, ..s }
}

/// The item of the alternative `to` of `from` that starts at `k` and has
/// matched nothing.
pub open spec fn spec_fresh<T>(from: T, to: Seq<T>, k: nat) -> StateModel<T> {
    StateModel { from, to, origin: k, end: k, idx: 0 }
}

/// Whether the chart holds, at `k`, every alternative of `symbol` as an
/// item that has matched nothing.
pub open spec fn spec_predicts<T>(
    g: Seq<RuleModel<T>>,
    c: Seq<Seq<EntryModel<T>>>,
    symbol: T,
    k: nat,
) -> bool {
    forall|r: int, a: int|
        0 <= r < g.len() && 0 <= a < g[r].right_hand.len() && g[r].left_hand == symbol
            ==> spec_present(c, spec_fresh(symbol, #[trigger] g[r].right_hand[a], k))
}

/// Whether the chart holds, at `k`, the alternatives of `symbol` in the
/// rules before `r`, and the first `a` of them in the rule at `r`.
pub open spec fn spec_predicts_upto<T>(
    g: Seq<RuleModel<T>>,
    c: Seq<Seq<EntryModel<T>>>,
    symbol: T,
    k: nat,
    r: int,
    a: int,
) -> bool {
    forall|r2: int, a2: int|
        0 <= r2 < g.len() && 0 <= a2 < g[r2].right_hand.len() && g[r2].left_hand == symbol && (
        r2 < r || (r2 == r && a2 < a)) ==> spec_present(
            c,
            spec_fresh(symbol, #[trigger] g[r2].right_hand[a2], k),
        )
}

/// Whether the item `p` expects `symbol` next.
pub open spec fn spec_expects<T>(p: StateModel<T>, symbol: T) -> bool {
    p.idx < p.to.len() && p.to[p.idx as int] == symbol
}

/// Whether the chart holds, for every item that ends where `s` starts and
/// expects the symbol of `s`, that item one step on, up to the end of `s`,
/// with the packed node of that step.
pub open spec fn spec_completes<T>(c: Seq<Seq<EntryModel<T>>>, s: StateModel<T>) -> bool {
    forall|x: int|
        0 <= x < c[s.origin as int].len() && spec_expects(
            (#[trigger] c[s.origin as int][x]).0,
            s.from,
        ) ==> spec_present(c, spec_advanced(c[s.origin as int][x].0, s.end)) && spec_holds_node(
            c,
            spec_advanced(c[s.origin as int][x].0, s.end),
            spec_completed_node(c[s.origin as int][x].0, s),
        )
}

/// Whether the chart holds what follows from the item `s`: the
/// alternatives of the nonterminal it expects; itself one step on, where
/// it expects the symbol at its end in the sentence; and, where it is
/// finished and spans a symbol at least, each item that waited for it one
/// step on; each step with its packed node.
pub open spec fn spec_item_done<T>(
    g: Seq<RuleModel<T>>,
    w: Seq<T>,
    c: Seq<Seq<EntryModel<T>>>,
    s: StateModel<T>,
) -> bool {
    if s.idx < s.to.len() {
        if spec_is_nonterm(g, s.to[s.idx as int]) {
            spec_predicts(g, c, s.to[s.idx as int], s.end)
        } else {
            s.end < w.len() && w[s.end as int] == s.to[s.idx as int] ==> spec_present(
                c,
                spec_advanced(s, s.end + 1),
            ) && spec_holds_node(
                c,
                spec_advanced(s, s.end + 1),
                spec_scanned_node(s, w[s.end as int], s.end + 1),
            )
        }
    } else {
        s.origin < s.end ==> spec_completes(c, s)
    }
}

/// Whether the chart holds what follows from each of its items in the
/// sets before `i`, and from the first `cursor` items of the set at `i`.
pub open spec fn spec_saturated_upto<T>(
    g: Seq<RuleModel<T>>,
    w: Seq<T>,
    c: Seq<Seq<EntryModel<T>>>,
    i: int,
    cursor: int,
) -> bool {
    forall|j: int, x: int|
        0 <= j < c.len() && 0 <= x < c[j].len() && (j < i || (j == i && x < cursor))
            ==> spec_item_done(g, w, c, (#[trigger] c[j][x]).0)
}

/// Whether a chart is saturated: it holds the alternatives of `start` at
/// 0, and what follows from each of its items.
pub open spec fn spec_saturated<T>(
    g: Seq<RuleModel<T>>,
    w: Seq<T>,
    start: T,
    c: Seq<Seq<EntryModel<T>>>,
) -> bool {
    &&& spec_predicts(g, c, start, 0)
    &&& spec_saturated_upto(g, w, c, c.len() as int, 0)
}

/// Whether the sets before `i` are the same in two charts.
pub open spec fn spec_same_below<T>(
    a: Seq<Seq<EntryModel<T>>>,
    b: Seq<Seq<EntryModel<T>>>,
    i: int,
) -> bool {
    forall|j: int| 0 <= j < i && j < a.len() ==> #[trigger] b[j] == a[j]
}

proof fn lemma_present_stays<T>(
    a: Seq<Seq<EntryModel<T>>>,
    b: Seq<Seq<EntryModel<T>>>,
    s: StateModel<T>,
)
    requires
        spec_chart_grows(a, b),
        spec_present(a, s),
    ensures
        spec_present(b, s),
{
    lemma_kept_found(a, b, s.end as int);
}

proof fn lemma_predicts_stays<T>(
    g: Seq<RuleModel<T>>,
    a: Seq<Seq<EntryModel<T>>>,
    b: Seq<Seq<EntryModel<T>>>,
    symbol: T,
    k: nat,
)
    requires
        spec_chart_grows(a, b),
        spec_predicts(g, a, symbol, k),
    ensures
        spec_predicts(g, b, symbol, k),
{
    assert forall|r: int, x: int|
        0 <= r < g.len() && 0 <= x < g[r].right_hand.len() && g[r].left_hand
            == symbol implies spec_present(
        b,
        spec_fresh(symbol, #[trigger] g[r].right_hand[x], k),
    ) by {
        lemma_present_stays(a, b, spec_fresh(symbol, g[r].right_hand[x], k));
    }
}

proof fn lemma_followed_stays<T>(
    g: Seq<RuleModel<T>>,
    w: Seq<T>,
    a: Seq<Seq<EntryModel<T>>>,
    b: Seq<Seq<EntryModel<T>>>,
    s: StateModel<T>,
)
    requires
        spec_chart_grows(a, b),
        spec_item_done(g, w, a, s),
        s.origin < s.end ==> 0 <= s.origin < a.len() && b[s.origin as int] == a[s.origin as int],
    ensures
        spec_item_done(g, w, b, s),
{
    if s.idx < s.to.len() {
        if spec_is_nonterm(g, s.to[s.idx as int]) {
            lemma_predicts_stays(g, a, b, s.to[s.idx as int], s.end);
        } else if s.end < w.len() && w[s.end as int] == s.to[s.idx as int] {
            lemma_present_stays(a, b, spec_advanced(s, s.end + 1));
            lemma_node_stays(
                a,
                b,
                spec_advanced(s, s.end + 1),
                spec_scanned_node(s, w[s.end as int], s.end + 1),
            );
        }
    } else if s.origin < s.end {
        assert forall|x: int|
            0 <= x < b[s.origin as int].len() && spec_expects(
                (#[trigger] b[s.origin as int][x]).0,
                s.from,
            ) implies spec_present(b, spec_advanced(b[s.origin as int][x].0, s.end))
            && spec_holds_node(
            b,
            spec_advanced(b[s.origin as int][x].0, s.end),
            spec_completed_node(b[s.origin as int][x].0, s),
        ) by {
            lemma_present_stays(a, b, spec_advanced(a[s.origin as int][x].0, s.end));
            lemma_node_stays(
                a,
                b,
                spec_advanced(a[s.origin as int][x].0, s.end),
                spec_completed_node(a[s.origin as int][x].0, s),
            );
        }
    }
}

proof fn lemma_saturated_stays<T>(
    g: Seq<RuleModel<T>>,
    w: Seq<T>,
    a: Seq<Seq<EntryModel<T>>>,
    b: Seq<Seq<EntryModel<T>>>,
    i: int,
    cursor: int,
)
    requires
        spec_chart_ok(g, w, a),
        spec_chart_grows(a, b),
        spec_same_below(a, b, i),
        0 <= i < a.len(),
        0 <= cursor <= a[i].len(),
        spec_saturated_upto(g, w, a, i, cursor),
    ensures
        spec_saturated_upto(g, w, b, i, cursor),
{
    assert forall|j: int, x: int|
        0 <= j < b.len() && 0 <= x < b[j].len() && (j < i || (j == i && x < cursor))
            implies spec_item_done(g, w, b, (#[trigger] b[j][x]).0) by {
        assert(b[j][x].0 == a[j][x].0);
        let s = a[j][x].0;
        assert(s.end == j);
        assert(spec_item_holds(g, w, s));
        lemma_followed_stays(g, w, a, b, s);
    }
}

/// Whether the chart holds the item `d` among those it has followed: in a
/// set before `i`, or among the first `cursor` items of the set at `i`.
pub open spec fn spec_done<T>(
    c: Seq<Seq<EntryModel<T>>>,
    d: StateModel<T>,
    i: int,
    cursor: int,
) -> bool {
    d.end < c.len() && exists|z: int|
        0 <= z < c[d.end as int].len() && (#[trigger] c[d.end as int][z]).0 == d && (d.end < i || (
        d.end == i && z < cursor))
}

/// Whether the packed node `node` came in time: where it stands on a
/// finished item, the chart has followed that item, or that item is
/// `item` and the node's left child is one of the first `upto` items of
/// `waiting`.
pub open spec fn spec_node_due<T>(
    c: Seq<Seq<EntryModel<T>>>,
    node: PackedModel<T>,
    i: int,
    cursor: int,
    item: StateModel<T>,
    waiting: Seq<EntryModel<T>>,
    upto: int,
) -> bool {
    match node.right_child {
        Some(DerivationModel::CompletedFrom { state: d }) => spec_done(c, d, i, cursor) || (d
            == item && match node.left_child {
            DerivationModel::CompletedFrom { state: p } => exists|y: int|
                0 <= y < upto && y < waiting.len() && (#[trigger] waiting[y]).0 == p,
            DerivationModel::ScannedFrom { symbol, idx } => false,
        }),
        _ => true,
    }
}

/// Whether the items behind the set at `i` came in time: each item of the
/// next set is one step on from an item that the chart has followed, and
/// the sets behind that are empty.
pub open spec fn spec_scans_done<T>(c: Seq<Seq<EntryModel<T>>>, i: int, cursor: int) -> bool {
    &&& forall|x: int|
        i + 1 < c.len() && 0 <= x < c[i + 1].len() ==> spec_done(
            c,
            spec_before((#[trigger] c[i + 1][x]).0, i as nat),
            i,
            cursor,
        )
    &&& forall|j: int| i + 1 < j < c.len() ==> (#[trigger] c[j]).len() == 0
}

/// Whether all of the chart came in time, while the item `item` is
/// followed and has taken the first `upto` items of `waiting` one step on.
pub open spec fn spec_due<T>(
    c: Seq<Seq<EntryModel<T>>>,
    i: int,
    cursor: int,
    item: StateModel<T>,
    waiting: Seq<EntryModel<T>>,
    upto: int,
) -> bool {
    &&& 0 <= i < c.len()
    &&& spec_scans_done(c, i, cursor)
    &&& forall|j: int, x: int, y: int|
        0 <= j < c.len() && 0 <= x < c[j].len() && 0 <= y < c[j][x].1.len() ==> spec_node_due(
            c,
            #[trigger] c[j][x].1[y],
            i,
            cursor,
            item,
            waiting,
            upto,
        )
}

/// Whether all of the chart came in time: each packed node that stands on
/// a finished item stands on one that the chart has followed, and each
/// item behind the set at `i` is one step on from such an item.
pub open spec fn spec_on_time<T>(c: Seq<Seq<EntryModel<T>>>, i: int, cursor: int) -> bool {
    &&& 0 <= i < c.len()
    &&& spec_scans_done(c, i, cursor)
    &&& forall|j: int, x: int, y: int|
        0 <= j < c.len() && 0 <= x < c[j].len() && 0 <= y < c[j][x].1.len() ==> spec_node_due(
            c,
            #[trigger] c[j][x].1[y],
            i,
            cursor,
            c[j][x].0,
            Seq::empty(),
            0,
        )
}

/// An item that a chart has followed the chart grown has followed, then
/// and later.
proof fn lemma_done_stays<T>(
    a: Seq<Seq<EntryModel<T>>>,
    b: Seq<Seq<EntryModel<T>>>,
    d: StateModel<T>,
    i: int,
    cursor: int,
    later: int,
)
    requires
        spec_chart_grows(a, b),
        spec_done(a, d, i, cursor),
        cursor <= later,
    ensures
        spec_done(b, d, i, later),
{
    let z = choose|z: int|
        0 <= z < a[d.end as int].len() && (#[trigger] a[d.end as int][z]).0 == d && (d.end < i || (
        d.end == i && z < cursor));
    assert(b[d.end as int][z].0 == d);
}

/// Where a packed node of the chart merged comes from: the chart before
/// the merge, at the same place, or the packed nodes that were merged.
proof fn lemma_merged_node<T>(
    c: Seq<Seq<EntryModel<T>>>,
    k: int,
    s: StateModel<T>,
    nodes: Seq<PackedModel<T>>,
    j: int,
    x: int,
    y: int,
)
    requires
        0 <= k < c.len(),
        0 <= j < c.len(),
        0 <= x < c.update(k, spec_merge(c[k], s, nodes))[j].len(),
        0 <= y < c.update(k, spec_merge(c[k], s, nodes))[j][x].1.len(),
    ensures
        ({
            let after = c.update(k, spec_merge(c[k], s, nodes));
            (x < c[j].len() && y < c[j][x].1.len() && after[j][x].1[y] == c[j][x].1[y]) || (j == k
                && after[j][x].0 == s && nodes.contains(after[j][x].1[y]))
        }),
{
    let after = c.update(k, spec_merge(c[k], s, nodes));
    lemma_merge(c[k], s, nodes);
    lemma_find(c[k], s);
    if j == k {
        match spec_find(c[k], s) {
            Some(at) => {
                if x == at {
                    let had = c[k][x].1.len();
                    if y >= had {
                        assert(after[j][x].1[y] == nodes[y - had]);
                    }
                }
            },
            None => {
                if x == c[k].len() {
                    assert(after[j][x].1[y] == nodes[y]);
                }
            },
        }
    }
}

/// Time goes on: a chart that came in time stays so while more of its
/// items count as followed.
proof fn lemma_time_passes<T>(c: Seq<Seq<EntryModel<T>>>, i: int, cursor: int, later: int)
    requires
        spec_on_time(c, i, cursor),
        cursor <= later,
    ensures
        spec_on_time(c, i, later),
{
    lemma_grows_same(c);
    assert forall|j: int, x: int, y: int|
        0 <= j < c.len() && 0 <= x < c[j].len() && 0 <= y < c[j][x].1.len() implies spec_node_due(
        c,
        #[trigger] c[j][x].1[y],
        i,
        later,
        c[j][x].0,
        Seq::empty(),
        0,
    ) by {
        assert(spec_node_due(c, c[j][x].1[y], i, cursor, c[j][x].0, Seq::empty(), 0));
        match c[j][x].1[y].right_child {
            Some(DerivationModel::CompletedFrom { state: d }) => {
                lemma_done_stays(c, c, d, i, cursor, later);
            },
            _ => {},
        }
    }
    assert forall|x: int| i + 1 < c.len() && 0 <= x < c[i + 1].len() implies spec_done(
        c,
        spec_before((#[trigger] c[i + 1][x]).0, i as nat),
        i,
        later,
    ) by {
        lemma_done_stays(c, c, spec_before(c[i + 1][x].0, i as nat), i, cursor, later);
    }
}

/// A chart is itself grown.
proof fn lemma_grows_same<T>(c: Seq<Seq<EntryModel<T>>>)
    ensures
        spec_chart_grows(c, c),
{
}

/// A chart that came in time up to the end of the set at `i` comes in
/// time at the start of the next set.
proof fn lemma_next_set<T>(c: Seq<Seq<EntryModel<T>>>, i: int, cursor: int)
    requires
        spec_on_time(c, i, cursor),
        i + 1 < c.len(),
        forall|j: int, x: int|
            0 <= j < c.len() && 0 <= x < c[j].len() ==> (#[trigger] c[j][x]).0.end == j,
    ensures
        spec_on_time(c, i + 1, 0),
{
    assert forall|j: int, x: int, y: int|
        0 <= j < c.len() && 0 <= x < c[j].len() && 0 <= y < c[j][x].1.len() implies spec_node_due(
        c,
        #[trigger] c[j][x].1[y],
        i + 1,
        0,
        c[j][x].0,
        Seq::empty(),
        0,
    ) by {
        assert(spec_node_due(c, c[j][x].1[y], i, cursor, c[j][x].0, Seq::empty(), 0));
        match c[j][x].1[y].right_child {
            Some(DerivationModel::CompletedFrom { state: d }) => {
                let z = choose|z: int|
                    0 <= z < c[d.end as int].len() && (#[trigger] c[d.end as int][z]).0 == d && (
                    d.end < i || (d.end == i && z < cursor));
                assert(spec_done(c, d, i + 1, 0));
            },
            _ => {},
        }
    }
}

/// Merging an item without packed nodes into the set at `i` leaves a chart
/// in time.
proof fn lemma_fresh_in_time<T>(c: Seq<Seq<EntryModel<T>>>, i: int, cursor: int, s: StateModel<T>)
    requires
        spec_on_time(c, i, cursor),
    ensures
        spec_on_time(c.update(i, spec_merge(c[i], s, Seq::empty())), i, cursor),
{
    let nodes = Seq::<PackedModel<T>>::empty();
    let after = c.update(i, spec_merge(c[i], s, nodes));
    lemma_merge_grows(c, i, s, nodes);
    lemma_merge(c[i], s, nodes);
    assert forall|j: int, x: int, y: int|
        0 <= j < after.len() && 0 <= x < after[j].len() && 0 <= y < after[j][x].1.len()
            implies spec_node_due(
        after,
        #[trigger] after[j][x].1[y],
        i,
        cursor,
        after[j][x].0,
        Seq::empty(),
        0,
    ) by {
        lemma_merged_node(c, i, s, nodes, j, x, y);
        assert(spec_node_due(c, c[j][x].1[y], i, cursor, c[j][x].0, Seq::empty(), 0));
        match c[j][x].1[y].right_child {
            Some(DerivationModel::CompletedFrom { state: d }) => {
                lemma_done_stays(c, after, d, i, cursor, cursor);
            },
            _ => {},
        }
    }
    assert forall|x: int| i + 1 < after.len() && 0 <= x < after[i + 1].len() implies spec_done(
        after,
        spec_before((#[trigger] after[i + 1][x]).0, i as nat),
        i,
        cursor,
    ) by {
        assert(after[i + 1] == c[i + 1]);
        lemma_done_stays(c, after, spec_before(c[i + 1][x].0, i as nat), i, cursor, cursor);
    }
    assert forall|j: int| i + 1 < j < after.len() implies (#[trigger] after[j]).len() == 0 by {
        assert(after[j] == c[j]);
    }
}

/// The item at `cursor` of the set at `i` has not been taken a step on
/// over the symbol at `i` before it is followed.
proof fn lemma_scan_is_new<T>(
    g: Seq<RuleModel<T>>,
    w: Seq<T>,
    c: Seq<Seq<EntryModel<T>>>,
    i: int,
    cursor: int,
    item: StateModel<T>,
)
    requires
        spec_chart_ok(g, w, c),
        spec_on_time(c, i, cursor),
        i + 1 < c.len(),
        0 <= cursor < c[i].len(),
        c[i][cursor].0 == item,
    ensures
        spec_find(c[i + 1], spec_advanced(item, (i + 1) as nat)) is None,
{
    let next = spec_advanced(item, (i + 1) as nat);
    lemma_find(c[i + 1], next);
    if spec_find(c[i + 1], next) is Some {
        let x = spec_find(c[i + 1], next)->Some_0;
        assert(spec_set_ok(g, w, c[i], i));
        assert(item.end == i);
        assert(spec_before(c[i + 1][x].0, i as nat) == item);
        assert(spec_done(c, spec_before(c[i + 1][x].0, i as nat), i, cursor));
        let z = choose|z: int|
            0 <= z < c[item.end as int].len() && (#[trigger] c[item.end as int][z]).0 == item && (
            item.end < i || (item.end == i && z < cursor));
        assert(c[i][z].0 == c[i][cursor].0);
    }
}

/// Taking the item at `cursor` of the set at `i` a step on over the
/// symbol at `i` leaves a chart in time, with that item followed.
proof fn lemma_scan_in_time<T>(
    g: Seq<RuleModel<T>>,
    w: Seq<T>,
    c: Seq<Seq<EntryModel<T>>>,
    i: int,
    cursor: int,
    item: StateModel<T>,
    symbol: T,
)
    requires
        spec_chart_ok(g, w, c),
        spec_on_time(c, i, cursor),
        i + 1 < c.len(),
        0 <= cursor < c[i].len(),
        c[i][cursor].0 == item,
    ensures
        spec_on_time(
            c.update(
                i + 1,
                spec_merge(
                    c[i + 1],
                    spec_advanced(item, (i + 1) as nat),
                    seq![spec_scanned_node(item, symbol, (i + 1) as nat)],
                ),
            ),
            i,
            cursor + 1,
        ),
{
    let next = spec_advanced(item, (i + 1) as nat);
    let nodes = seq![spec_scanned_node(item, symbol, (i + 1) as nat)];
    let after = c.update(i + 1, spec_merge(c[i + 1], next, nodes));
    lemma_merge_grows(c, i + 1, next, nodes);
    lemma_merge(c[i + 1], next, nodes);
    lemma_scan_is_new(g, w, c, i, cursor, item);
    assert(spec_set_ok(g, w, c[i], i));
    assert(item.end == i);
    assert forall|j: int, x: int, y: int|
        0 <= j < after.len() && 0 <= x < after[j].len() && 0 <= y < after[j][x].1.len()
            implies spec_node_due(
        after,
        #[trigger] after[j][x].1[y],
        i,
        cursor + 1,
        after[j][x].0,
        Seq::empty(),
        0,
    ) by {
        lemma_merged_node(c, i + 1, next, nodes, j, x, y);
        if x < c[j].len() && y < c[j][x].1.len() && after[j][x].1[y] == c[j][x].1[y] {
            assert(spec_node_due(c, c[j][x].1[y], i, cursor, c[j][x].0, Seq::empty(), 0));
            match c[j][x].1[y].right_child {
                Some(DerivationModel::CompletedFrom { state: d }) => {
                    lemma_done_stays(c, after, d, i, cursor, cursor + 1);
                },
                _ => {},
            }
        } else {
            let z = choose|z: int| 0 <= z < nodes.len() && nodes[z] == after[j][x].1[y];
            assert(nodes[z] == spec_scanned_node(item, symbol, (i + 1) as nat));
        }
    }
    assert forall|x: int| i + 1 < after.len() && 0 <= x < after[i + 1].len() implies spec_done(
        after,
        spec_before((#[trigger] after[i + 1][x]).0, i as nat),
        i,
        cursor + 1,
    ) by {
        if x < c[i + 1].len() {
            assert(after[i + 1][x].0 == c[i + 1][x].0);
            lemma_done_stays(c, after, spec_before(c[i + 1][x].0, i as nat), i, cursor, cursor + 1);
        } else {
            assert(after[i + 1][x].0 == next);
            assert(spec_before(next, i as nat) == item);
            assert(after[i][cursor].0 == item);
            assert(spec_done(after, item, i, cursor + 1));
        }
    }
    assert forall|j: int| i + 1 < j < after.len() implies (#[trigger] after[j]).len() == 0 by {
        assert(after[j] == c[j]);
    }
}

/// Whether the items that the packed node `node` stands on stand in the
/// chart before the place `x` of the set at `j`: in a set before it, or in
/// that set at an earlier place.
pub open spec fn spec_node_precedes<T>(
    c: Seq<Seq<EntryModel<T>>>,
    node: PackedModel<T>,
    j: int,
    x: int,
) -> bool {
    &&& match node.left_child {
        DerivationModel::CompletedFrom { state: p } => spec_done(c, p, j, x),
        DerivationModel::ScannedFrom { symbol, idx } => true,
    }
    &&& match node.right_child {
        Some(DerivationModel::CompletedFrom { state: d }) => spec_done(c, d, j, x),
        _ => true,
    }
}

/// Whether the first packed node of each item of the chart stands on items
/// that stand in the chart before that item.
pub open spec fn spec_first_precede<T>(c: Seq<Seq<EntryModel<T>>>) -> bool {
    forall|j: int, x: int|
        0 <= j < c.len() && 0 <= x < c[j].len() && (#[trigger] c[j][x]).1.len() > 0
            ==> spec_node_precedes(c, c[j][x].1[0], j, x)
}

/// A merge keeps the first packed nodes behind the items they stand on,
/// where the first of the nodes that are merged stands on items of the
/// chart that stand before the end of the set.
proof fn lemma_merge_keeps_order<T>(
    g: Seq<RuleModel<T>>,
    w: Seq<T>,
    c: Seq<Seq<EntryModel<T>>>,
    k: int,
    s: StateModel<T>,
    nodes: Seq<PackedModel<T>>,
)
    requires
        spec_chart_ok(g, w, c),
        spec_first_precede(c),
        0 <= k < c.len(),
        nodes.len() > 0 ==> s.idx >= 1 && spec_node_precedes(c, nodes[0], k, c[k].len() as int),
    ensures
        spec_first_precede(c.update(k, spec_merge(c[k], s, nodes))),
{
    let after = c.update(k, spec_merge(c[k], s, nodes));
    lemma_merge_grows(c, k, s, nodes);
    lemma_merge(c[k], s, nodes);
    lemma_find(c[k], s);
    assert forall|j: int, x: int|
        0 <= j < after.len() && 0 <= x < after[j].len() && (#[trigger] after[j][x]).1.len()
            > 0 implies spec_node_precedes(after, after[j][x].1[0], j, x) by {
        let node = after[j][x].1[0];
        if x < c[j].len() {
            assert(spec_set_ok(g, w, c[j], j));
            assert(spec_entry_ok(g, w, c[j][x]));
            assert(after[j][x].0 == c[j][x].0);
            assert(spec_extends(c[j][x].1, after[j][x].1));
            if c[j][x].1.len() == 0 {
                assert(j == k && after[j][x].1 == c[j][x].1 + nodes);
                assert(c[j][x].0 == s);
                assert(false);
            }
            assert(node == c[j][x].1[0]);
            assert(spec_node_precedes(c, c[j][x].1[0], j, x));
            match node.left_child {
                DerivationModel::CompletedFrom { state: p } => {
                    lemma_done_stays(c, after, p, j, x, x);
                },
                _ => {},
            }
            match node.right_child {
                Some(DerivationModel::CompletedFrom { state: d }) => {
                    lemma_done_stays(c, after, d, j, x, x);
                },
                _ => {},
            }
        } else {
            assert(j == k && x == c[k].len());
            assert(after[j][x].1 == nodes);
            match node.left_child {
                DerivationModel::CompletedFrom { state: p } => {
                    lemma_done_stays(c, after, p, j, x, x);
                },
                _ => {},
            }
            match node.right_child {
                Some(DerivationModel::CompletedFrom { state: d }) => {
                    lemma_done_stays(c, after, d, j, x, x);
                },
                _ => {},
            }
        }
    }
}

/// A chart in time is due while an item is followed that has taken no
/// item a step on yet.
proof fn lemma_due_start<T>(
    c: Seq<Seq<EntryModel<T>>>,
    i: int,
    cursor: int,
    item: StateModel<T>,
    waiting: Seq<EntryModel<T>>,
)
    requires
        spec_on_time(c, i, cursor),
    ensures
        spec_due(c, i, cursor, item, waiting, 0),
{
    assert forall|j: int, x: int, y: int|
        0 <= j < c.len() && 0 <= x < c[j].len() && 0 <= y < c[j][x].1.len() implies spec_node_due(
        c,
        #[trigger] c[j][x].1[y],
        i,
        cursor,
        item,
        waiting,
        0,
    ) by {
        assert(spec_node_due(c, c[j][x].1[y], i, cursor, c[j][x].0, Seq::empty(), 0));
    }
}

/// A chart that is due while the item at `cursor` of the set at `i` is
/// followed is in time once that item counts as followed.
proof fn lemma_due_end<T>(
    c: Seq<Seq<EntryModel<T>>>,
    i: int,
    cursor: int,
    item: StateModel<T>,
    waiting: Seq<EntryModel<T>>,
    upto: int,
)
    requires
        spec_due(c, i, cursor, item, waiting, upto),
        0 <= cursor < c[i].len(),
        c[i][cursor].0 == item,
        item.end == i,
    ensures
        spec_on_time(c, i, cursor + 1),
{
    lemma_grows_same(c);
    assert(spec_done(c, item, i, cursor + 1));
    assert forall|j: int, x: int, y: int|
        0 <= j < c.len() && 0 <= x < c[j].len() && 0 <= y < c[j][x].1.len() implies spec_node_due(
        c,
        #[trigger] c[j][x].1[y],
        i,
        cursor + 1,
        c[j][x].0,
        Seq::empty(),
        0,
    ) by {
        assert(spec_node_due(c, c[j][x].1[y], i, cursor, item, waiting, upto));
        match c[j][x].1[y].right_child {
            Some(DerivationModel::CompletedFrom { state: d }) => {
                if spec_done(c, d, i, cursor) {
                    lemma_done_stays(c, c, d, i, cursor, cursor + 1);
                }
            },
            _ => {},
        }
    }
    assert forall|x: int| i + 1 < c.len() && 0 <= x < c[i + 1].len() implies spec_done(
        c,
        spec_before((#[trigger] c[i + 1][x]).0, i as nat),
        i,
        cursor + 1,
    ) by {
        lemma_done_stays(c, c, spec_before(c[i + 1][x].0, i as nat), i, cursor, cursor + 1);
    }
}

/// A chart that is due stays so when one more of the items that wait
/// counts as dealt with.
proof fn lemma_due_more<T>(
    c: Seq<Seq<EntryModel<T>>>,
    i: int,
    cursor: int,
    item: StateModel<T>,
    waiting: Seq<EntryModel<T>>,
    upto: int,
)
    requires
        spec_due(c, i, cursor, item, waiting, upto),
    ensures
        spec_due(c, i, cursor, item, waiting, upto + 1),
{
    assert forall|j: int, x: int, y: int|
        0 <= j < c.len() && 0 <= x < c[j].len() && 0 <= y < c[j][x].1.len() implies spec_node_due(
        c,
        #[trigger] c[j][x].1[y],
        i,
        cursor,
        item,
        waiting,
        upto + 1,
    ) by {
        assert(spec_node_due(c, c[j][x].1[y], i, cursor, item, waiting, upto));
        match c[j][x].1[y].right_child {
            Some(DerivationModel::CompletedFrom { state: d }) => {
                if !spec_done(c, d, i, cursor) {
                    match c[j][x].1[y].left_child {
                        DerivationModel::CompletedFrom { state: q } => {
                            let y2 = choose|y2: int|
                                0 <= y2 < upto && y2 < waiting.len() && (#[trigger] waiting[y2]).0
                                    == q;
                            assert(0 <= y2 < upto + 1 && waiting[y2].0 == q);
                        },
                        _ => {},
                    }
                }
            },
            _ => {},
        }
    }
}

/// While the item at `cursor` of the set at `i` is followed, the item at
/// `upto` of those that wait for it has not been taken a step on over it.
proof fn lemma_completion_is_new<T>(
    g: Seq<RuleModel<T>>,
    w: Seq<T>,
    c: Seq<Seq<EntryModel<T>>>,
    i: int,
    cursor: int,
    item: StateModel<T>,
    waiting: Seq<EntryModel<T>>,
    upto: int,
)
    requires
        spec_chart_ok(g, w, c),
        spec_due(c, i, cursor, item, waiting, upto),
        0 <= cursor < c[i].len(),
        c[i][cursor].0 == item,
        spec_distinct(waiting),
        0 <= upto < waiting.len(),
    ensures
        spec_fits(
            c[i],
            spec_advanced(waiting[upto].0, i as nat),
            seq![spec_completed_node(waiting[upto].0, item)],
        ),
{
    let p = waiting[upto].0;
    let next = spec_advanced(p, i as nat);
    let nodes = seq![spec_completed_node(p, item)];
    assert(spec_set_ok(g, w, c[i], i));
    assert forall|x: int, y: int|
        0 <= x < c[i].len() && (#[trigger] c[i][x]).0 == next && 0 <= y < nodes.len()
            implies !c[i][x].1.contains(#[trigger] nodes[y]) by {
        if c[i][x].1.contains(nodes[y]) {
            let z = choose|z: int| 0 <= z < c[i][x].1.len() && c[i][x].1[z] == nodes[y];
            assert(spec_node_due(c, c[i][x].1[z], i, cursor, item, waiting, upto));
            if spec_done(c, item, i, cursor) {
                let at = choose|at: int|
                    0 <= at < c[item.end as int].len() && (#[trigger] c[item.end as int][at]).0
                        == item && (item.end < i || (item.end == i && at < cursor));
                assert(c[i][at].0 == c[i][cursor].0);
            } else {
                let y2 = choose|y2: int|
                    0 <= y2 < upto && y2 < waiting.len() && (#[trigger] waiting[y2]).0 == p;
                assert(waiting[y2].0 == waiting[upto].0);
            }
        }
    }
}

/// Taking the item at `upto` of those that wait for the item that is
/// followed a step on over it leaves the chart due.
proof fn lemma_completion_in_time<T>(
    c: Seq<Seq<EntryModel<T>>>,
    i: int,
    cursor: int,
    item: StateModel<T>,
    waiting: Seq<EntryModel<T>>,
    upto: int,
)
    requires
        spec_due(c, i, cursor, item, waiting, upto),
        0 <= upto < waiting.len(),
    ensures
        spec_due(
            c.update(
                i,
                spec_merge(
                    c[i],
                    spec_advanced(waiting[upto].0, i as nat),
                    seq![spec_completed_node(waiting[upto].0, item)],
                ),
            ),
            i,
            cursor,
            item,
            waiting,
            upto + 1,
        ),
{
    let p = waiting[upto].0;
    let next = spec_advanced(p, i as nat);
    let nodes = seq![spec_completed_node(p, item)];
    let after = c.update(i, spec_merge(c[i], next, nodes));
    lemma_merge_grows(c, i, next, nodes);
    lemma_merge(c[i], next, nodes);
    assert forall|j: int, x: int, y: int|
        0 <= j < after.len() && 0 <= x < after[j].len() && 0 <= y < after[j][x].1.len()
            implies spec_node_due(
        after,
        #[trigger] after[j][x].1[y],
        i,
        cursor,
        item,
        waiting,
        upto + 1,
    ) by {
        lemma_merged_node(c, i, next, nodes, j, x, y);
        if x < c[j].len() && y < c[j][x].1.len() && after[j][x].1[y] == c[j][x].1[y] {
            assert(spec_node_due(c, c[j][x].1[y], i, cursor, item, waiting, upto));
            match c[j][x].1[y].right_child {
                Some(DerivationModel::CompletedFrom { state: d }) => {
                    if spec_done(c, d, i, cursor) {
                        lemma_done_stays(c, after, d, i, cursor, cursor);
                    } else {
                        match c[j][x].1[y].left_child {
                            DerivationModel::CompletedFrom { state: q } => {
                                let y2 = choose|y2: int|
                                    0 <= y2 < upto && y2 < waiting.len() && (
                                    #[trigger] waiting[y2]).0 == q;
                                assert(0 <= y2 < upto + 1 && waiting[y2].0 == q);
                            },
                            _ => {},
                        }
                    }
                },
                _ => {},
            }
        } else {
            let z = choose|z: int| 0 <= z < nodes.len() && nodes[z] == after[j][x].1[y];
            assert(nodes[z] == spec_completed_node(p, item));
            assert(0 <= upto < upto + 1 && waiting[upto].0 == p);
        }
    }
    assert forall|x: int| i + 1 < after.len() && 0 <= x < after[i + 1].len() implies spec_done(
        after,
        spec_before((#[trigger] after[i + 1][x]).0, i as nat),
        i,
        cursor,
    ) by {
        assert(after[i + 1] == c[i + 1]);
        lemma_done_stays(c, after, spec_before(c[i + 1][x].0, i as nat), i, cursor, cursor);
    }
    assert forall|j: int| i + 1 < j < after.len() implies (#[trigger] after[j]).len() == 0 by {
        assert(after[j] == c[j]);
    }
}

/// Predicts: adds to the set at `i` every alternative of `symbol`, as an
/// item that starts at `i` and has matched nothing.
fn predict<T: GrammarTrait>(
    states: &mut Vec<States<T>>,
    grammar: &Grammar<T>,
    symbol: T,
    i: usize,
    Ghost(w): Ghost<Seq<T>>,
    Ghost(cursor): Ghost<int>,
)
    requires
        spec_chart_ok(grammar@, w, chart_view(old(states)@)),
        spec_chart_closed(chart_view(old(states)@)),
        spec_on_time(chart_view(old(states)@), i as int, cursor),
        spec_first_precede(chart_view(old(states)@)),
        i < old(states)@.len(),
    ensures
        spec_chart_ok(grammar@, w, chart_view(final(states)@)),
        spec_chart_closed(chart_view(final(states)@)),
        spec_on_time(chart_view(final(states)@), i as int, cursor),
        spec_first_precede(chart_view(final(states)@)),
        spec_chart_grows(chart_view(old(states)@), chart_view(final(states)@)),
        spec_same_below(chart_view(old(states)@), chart_view(final(states)@), i as int),
        spec_predicts(grammar@, chart_view(final(states)@), symbol, i as nat),
{
    let ghost g = grammar@;
    let ghost first = chart_view(states@);
    let mut r: usize = 0;
    while r < grammar.rules.len()
        invariant
            r <= grammar.rules@.len(),
            g == grammar@,
            i < states@.len(),
            first == chart_view(old(states)@),
            spec_chart_ok(g, w, chart_view(states@)),
            spec_chart_closed(chart_view(states@)),
            spec_on_time(chart_view(states@), i as int, cursor),
            spec_first_precede(chart_view(states@)),
            spec_chart_grows(first, chart_view(states@)),
            spec_same_below(first, chart_view(states@), i as int),
            spec_predicts_upto(g, chart_view(states@), symbol, i as nat, r as int, 0),
        decreases grammar.rules@.len() - r,
    {
        if symbol.same(&grammar.rules[r].left_hand) {
            let mut a: usize = 0;
            while a < grammar.rules[r].right_hand.len()
                invariant
                    r < grammar.rules@.len(),
                    a <= grammar.rules@[r as int].right_hand@.len(),
                    g == grammar@,
                    g[r as int].left_hand == symbol,
                    i < states@.len(),
                    spec_chart_ok(g, w, chart_view(states@)),
                    spec_chart_closed(chart_view(states@)),
                    spec_on_time(chart_view(states@), i as int, cursor),
                    spec_first_precede(chart_view(states@)),
                    spec_chart_grows(first, chart_view(states@)),
                    spec_same_below(first, chart_view(states@), i as int),
                    spec_predicts_upto(
                        g,
                        chart_view(states@),
                        symbol,
                        i as nat,
                        r as int,
                        a as int,
                    ),
                decreases grammar.rules@[r as int].right_hand@.len() - a,
            {
                let new_state = EarleyState {
                    from: symbol,
                    to: copy_syms(&grammar.rules[r].right_hand[a]),
                    origin: i,
                    end: i,
                    idx: 0,
                };
                let ghost before = chart_view(states@);
                proof {
                    assert(g[r as int].right_hand[a as int] == new_state@.to);
                    lemma_fresh_item_holds(g, w, new_state@);
                    lemma_merge_grows(before, i as int, new_state@, Seq::empty());
                }
                let nothing: Children<T> = Vec::new();
                assert(packed_view(nothing@) =~= Seq::empty());
                proof {
                    lemma_fresh_in_time(before, i as int, cursor, new_state@);
                    lemma_merge_keeps_order(g, w, before, i as int, new_state@, Seq::empty());
                }
                merge_into(states, i, new_state, nothing, Ghost(g), Ghost(w));
                proof {
                    let after = chart_view(states@);
                    lemma_merge(before[i as int], new_state@, Seq::empty());
                    lemma_grows_chain(first, before, after);
                    assert(spec_present(after, new_state@));
                    assert forall|r2: int, a2: int|
                        0 <= r2 < g.len() && 0 <= a2 < g[r2].right_hand.len() && g[r2].left_hand
                            == symbol && (r2 < r || (r2 == r && a2 < a + 1)) implies spec_present(
                        after,
                        spec_fresh(symbol, #[trigger] g[r2].right_hand[a2], i as nat),
                    ) by {
                        if r2 == r && a2 == a {
                            assert(spec_fresh(symbol, g[r2].right_hand[a2], i as nat)
                                == new_state@);
                        } else {
                            lemma_present_stays(
                                before,
                                after,
                                spec_fresh(symbol, g[r2].right_hand[a2], i as nat),
                            );
                        }
                    }
                }
                a = a + 1;
            }
        }
        r = r + 1;
    }
}

/// An item found in a set of a chart is found in that set of the chart
/// grown.
pub proof fn lemma_kept_found<T>(a: Seq<Seq<EntryModel<T>>>, b: Seq<Seq<EntryModel<T>>>, j: int)
    requires
        spec_chart_grows(a, b),
        0 <= j < a.len(),
    ensures
        forall|s: StateModel<T>|
            (#[trigger] spec_find(a[j], s)) is Some ==> spec_find(b[j], s) is Some,
{
    assert forall|s: StateModel<T>| (#[trigger] spec_find(a[j], s)) is Some implies spec_find(
        b[j],
        s,
    ) is Some by {
        lemma_find(a[j], s);
        lemma_find(b[j], s);
        let x = spec_find(a[j], s)->Some_0;
        assert(b[j][x].0 == s);
    }
}

proof fn lemma_grows_chain<T>(
    a: Seq<Seq<EntryModel<T>>>,
    b: Seq<Seq<EntryModel<T>>>,
    c: Seq<Seq<EntryModel<T>>>,
)
    requires
        spec_chart_grows(a, b),
        spec_chart_grows(b, c),
    ensures
        spec_chart_grows(a, c),
{
    assert forall|j: int, x: int| 0 <= j < a.len() && 0 <= x < a[j].len() implies (
    #[trigger] c[j][x]).0 == a[j][x].0 && spec_extends(a[j][x].1, c[j][x].1) by {
        assert(b[j][x].0 == a[j][x].0);
        assert(spec_extends(a[j][x].1, b[j][x].1));
        assert(spec_extends(b[j][x].1, c[j][x].1));
        assert forall|y: int| 0 <= y < a[j][x].1.len() implies #[trigger] c[j][x].1[y]
            == a[j][x].1[y] by {
            assert(b[j][x].1[y] == a[j][x].1[y]);
        }
    }
}

/// A packed node that an item has in a chart it has in the chart grown.
proof fn lemma_node_stays<T>(
    a: Seq<Seq<EntryModel<T>>>,
    b: Seq<Seq<EntryModel<T>>>,
    s: StateModel<T>,
    node: PackedModel<T>,
)
    requires
        spec_chart_grows(a, b),
        spec_holds_node(a, s, node),
    ensures
        spec_holds_node(b, s, node),
{
    let j = s.end as int;
    lemma_find(a[j], s);
    lemma_find(b[j], s);
    lemma_kept_found(a, b, j);
    let x = spec_find(a[j], s)->Some_0;
    let z = spec_find(b[j], s)->Some_0;
    assert(b[j][x].0 == s);
    if z < x {
        assert(b[j][z].0 == a[j][z].0);
    }
    assert(z == x);
    let y = choose|y: int| 0 <= y < a[j][x].1.len() && a[j][x].1[y] == node;
    assert(spec_extends(a[j][x].1, b[j][x].1));
    assert(b[j][x].1[y] == node);
}

/// After a merge the item has the packed nodes that were merged.
proof fn lemma_merge_holds<T>(
    c: Seq<Seq<EntryModel<T>>>,
    k: int,
    s: StateModel<T>,
    nodes: Seq<PackedModel<T>>,
)
    requires
        0 <= k < c.len(),
        s.end == k,
    ensures
        forall|y: int|
            0 <= y < nodes.len() ==> spec_holds_node(
                c.update(k, spec_merge(c[k], s, nodes)),
                s,
                #[trigger] nodes[y],
            ),
{
    let m = spec_merge(c[k], s, nodes);
    lemma_merge(c[k], s, nodes);
    lemma_find(c[k], s);
    lemma_find(m, s);
    let z = spec_find(m, s)->Some_0;
    assert forall|y: int| 0 <= y < nodes.len() implies spec_holds_node(
        c.update(k, m),
        s,
        #[trigger] nodes[y],
    ) by {
        match spec_find(c[k], s) {
            Some(x) => {
                if z < x {
                    assert(m[z].0 == c[k][z].0);
                }
                assert(m[x].0 == s);
                assert(z == x);
                assert(m[x].1[c[k][x].1.len() + y] == nodes[y]);
            },
            None => {
                if z < c[k].len() {
                    assert(m[z].0 == c[k][z].0);
                }
                assert(z == c[k].len());
                assert(m[z].1[y] == nodes[y]);
            },
        }
    }
}

/// Scans: steps `item` over the symbol at `i` of the sentence, into the set
/// at `i + 1`.
fn scan<T: GrammarTrait>(
    states: &mut Vec<States<T>>,
    item: &EarleyState<T>,
    symbol: T,
    i: usize,
    Ghost(g): Ghost<Seq<RuleModel<T>>>,
    Ghost(w): Ghost<Seq<T>>,
    Ghost(cursor): Ghost<int>,
)
    requires
        spec_chart_ok(g, w, chart_view(old(states)@)),
        spec_chart_closed(chart_view(old(states)@)),
        spec_on_time(chart_view(old(states)@), i as int, cursor),
        spec_first_precede(chart_view(old(states)@)),
        0 <= cursor < chart_view(old(states)@)[i as int].len(),
        chart_view(old(states)@)[i as int][cursor].0 == item@,
        spec_present(chart_view(old(states)@), item@),
        i + 1 < old(states)@.len(),
        spec_item_holds(g, w, item@),
        item@.end == i,
        item@.idx < item@.to.len(),
        w[i as int] == symbol,
        item@.to[item@.idx as int] == symbol,
        !spec_is_nonterm(g, symbol),
    ensures
        spec_chart_ok(g, w, chart_view(final(states)@)),
        spec_chart_closed(chart_view(final(states)@)),
        spec_chart_grows(chart_view(old(states)@), chart_view(final(states)@)),
        spec_same_below(chart_view(old(states)@), chart_view(final(states)@), i as int),
        spec_on_time(chart_view(final(states)@), i as int, cursor + 1),
        spec_first_precede(chart_view(final(states)@)),
        spec_present(chart_view(final(states)@), spec_advanced(item@, (i + 1) as nat)),
        spec_holds_node(
            chart_view(final(states)@),
            spec_advanced(item@, (i + 1) as nat),
            spec_scanned_node(item@, symbol, (i + 1) as nat),
        ),
{
    assert(item.idx < item.to.len() && i + 1 < states.len());
    let (next, children) = item.next_scanned(symbol, i + 1);
    proof {
        lemma_scanned_item_holds(g, w, item@, next@);
        lemma_merge_grows(chart_view(states@), i + 1, next@, packed_view(children@));
        assert(packed_view(children@)[0] == spec_scanned_node(item@, symbol, (i + 1) as nat));
        assert(spec_before(next@, i as nat) == item@);
        assert(spec_scan_step(g, w, next@, packed_view(children@)[0]));
        lemma_find(chart_view(states@)[i as int], item@);
        assert(spec_rooted(chart_view(states@), item@));
        assert(spec_rooted(chart_view(states@), next@));
        lemma_scan_is_new(g, w, chart_view(states@), i as int, cursor, item@);
        lemma_find(chart_view(states@)[i + 1], next@);
        lemma_scan_in_time(g, w, chart_view(states@), i as int, cursor, item@, symbol);
        assert(packed_view(children@).no_duplicates());
        let c = chart_view(states@);
        assert(spec_done(c, item@, i + 1, c[i + 1].len() as int)) by {
            assert(c[item@.end as int][cursor].0 == item@);
        }
        lemma_merge_keeps_order(g, w, c, i + 1, next@, packed_view(children@));
    }
    let ghost before = chart_view(states@);
    let ghost wanted = next@;
    merge_into(states, i + 1, next, children, Ghost(g), Ghost(w));
    proof {
        lemma_merge(before[i + 1], wanted, packed_view(children@));
        lemma_merge_holds(before, i + 1, wanted, packed_view(children@));
        assert(packed_view(children@)[0] == spec_scanned_node(item@, symbol, (i + 1) as nat));
    }
}

/// Whether the chart holds, for each of the first `upto` items of
/// `waiting` that expects the symbol of `item`, that item one step on, up
/// to `i`, with the packed node of the step over `item`.
pub open spec fn spec_completed_upto<T>(
    c: Seq<Seq<EntryModel<T>>>,
    waiting: Seq<EntryModel<T>>,
    item: StateModel<T>,
    i: nat,
    upto: int,
) -> bool {
    forall|y: int|
        0 <= y < upto && y < waiting.len() && spec_expects((#[trigger] waiting[y]).0, item.from)
            ==> spec_present(c, spec_advanced(waiting[y].0, i)) && spec_holds_node(
            c,
            spec_advanced(waiting[y].0, i),
            spec_completed_node(waiting[y].0, item),
        )
}

/// What holds before the item at `upto` of those that wait for `item` is
/// taken a step on over it: the item one step on holds, with a packed node
/// that is sound and new; and the chart with that item merged is due and
/// has its first packed nodes behind the items they stand on.
proof fn lemma_completion_ready<T>(
    g: Seq<RuleModel<T>>,
    w: Seq<T>,
    c: Seq<Seq<EntryModel<T>>>,
    i: int,
    cursor: int,
    item: StateModel<T>,
    waiting: Seq<EntryModel<T>>,
    upto: int,
)
    requires
        spec_chart_ok(g, w, c),
        spec_chart_closed(c),
        spec_first_precede(c),
        spec_due(c, i, cursor, item, waiting, upto),
        0 <= i < c.len(),
        0 <= cursor < c[i].len(),
        c[i][cursor].0 == item,
        item.end == i,
        item.idx == item.to.len(),
        item.origin <= i,
        spec_item_holds(g, w, item),
        spec_distinct(waiting),
        0 <= upto < waiting.len(),
        waiting.len() <= c[item.origin as int].len(),
        c[item.origin as int][upto].0 == waiting[upto].0,
        spec_expects(waiting[upto].0, item.from),
    ensures
        ({
            let parent = waiting[upto].0;
            let next = spec_advanced(parent, i as nat);
            let nodes = seq![spec_completed_node(parent, item)];
            let after = c.update(i, spec_merge(c[i], next, nodes));
            &&& spec_nodes_present(c, nodes)
            &&& spec_item_holds(g, w, next)
            &&& spec_entry_ok(g, w, (next, nodes))
            &&& spec_fits(c[i], next, nodes)
            &&& spec_rooted(c, next)
            &&& spec_due(after, i, cursor, item, waiting, upto + 1)
            &&& spec_first_precede(after)
        }),
{
    let origin = item.origin as int;
    let parent = waiting[upto].0;
    let next = spec_advanced(parent, i as nat);
    let nodes = seq![spec_completed_node(parent, item)];
    assert(spec_set_ok(g, w, c[origin], origin));
    assert(spec_set_ok(g, w, c[i], i));
    assert(parent.end == origin);
    assert(spec_item_holds(g, w, c[origin][upto].0));
    lemma_completed_item_holds(g, w, parent, item, next);
    lemma_find(c[origin], parent);
    lemma_find(c[i], item);
    assert(spec_present(c, parent));
    assert(spec_present(c, item));
    assert(spec_nodes_present(c, nodes));
    assert(spec_before(next, parent.end) == parent);
    assert(spec_completes_to(next, parent, item));
    assert(spec_completion_step(next, nodes[0]));
    assert(nodes.no_duplicates());
    assert(spec_entry_ok(g, w, (next, nodes)));
    assert(spec_rooted(c, c[origin][upto].0));
    assert(spec_rooted(c, next));
    lemma_completion_is_new(g, w, c, i, cursor, item, waiting, upto);
    lemma_completion_in_time(c, i, cursor, item, waiting, upto);
    assert(spec_done(c, parent, i, c[i].len() as int)) by {
        assert(c[parent.end as int][upto].0 == parent);
    }
    assert(spec_done(c, item, i, c[i].len() as int)) by {
        assert(c[item.end as int][cursor].0 == item);
    }
    lemma_merge_keeps_order(g, w, c, i, next, nodes);
}

/// After the item at `upto` of those that wait for `item` was taken a step
/// on over it, the chart holds that step, and those before it.
proof fn lemma_completion_done<T>(
    c: Seq<Seq<EntryModel<T>>>,
    waiting: Seq<EntryModel<T>>,
    item: StateModel<T>,
    i: int,
    upto: int,
)
    requires
        0 <= i < c.len(),
        0 <= upto < waiting.len(),
        spec_completed_upto(c, waiting, item, i as nat, upto),
    ensures
        spec_completed_upto(
            c.update(
                i,
                spec_merge(
                    c[i],
                    spec_advanced(waiting[upto].0, i as nat),
                    seq![spec_completed_node(waiting[upto].0, item)],
                ),
            ),
            waiting,
            item,
            i as nat,
            upto + 1,
        ),
{
    let next = spec_advanced(waiting[upto].0, i as nat);
    let nodes = seq![spec_completed_node(waiting[upto].0, item)];
    let after = c.update(i, spec_merge(c[i], next, nodes));
    lemma_merge_grows(c, i, next, nodes);
    lemma_merge(c[i], next, nodes);
    lemma_merge_holds(c, i, next, nodes);
    assert(nodes[0] == spec_completed_node(waiting[upto].0, item));
    assert(spec_present(after, next));
    assert forall|y: int|
        0 <= y < upto + 1 && y < waiting.len() && spec_expects(
            (#[trigger] waiting[y]).0,
            item.from,
        ) implies spec_present(after, spec_advanced(waiting[y].0, i as nat)) && spec_holds_node(
        after,
        spec_advanced(waiting[y].0, i as nat),
        spec_completed_node(waiting[y].0, item),
    ) by {
        if y < upto {
            lemma_present_stays(c, after, spec_advanced(waiting[y].0, i as nat));
            lemma_node_stays(
                c,
                after,
                spec_advanced(waiting[y].0, i as nat),
                spec_completed_node(waiting[y].0, item),
            );
        }
    }
}

/// Completes: steps every item that ends where `item` starts and expects
/// its symbol over it, into the set at `i`.
fn complete<T: GrammarTrait>(
    states: &mut Vec<States<T>>,
    item: &EarleyState<T>,
    i: usize,
    Ghost(g): Ghost<Seq<RuleModel<T>>>,
    Ghost(w): Ghost<Seq<T>>,
    Ghost(cursor): Ghost<int>,
)
    requires
        spec_chart_ok(g, w, chart_view(old(states)@)),
        spec_chart_closed(chart_view(old(states)@)),
        spec_on_time(chart_view(old(states)@), i as int, cursor),
        spec_first_precede(chart_view(old(states)@)),
        0 <= cursor < chart_view(old(states)@)[i as int].len(),
        chart_view(old(states)@)[i as int][cursor].0 == item@,
        spec_present(chart_view(old(states)@), item@),
        i < old(states)@.len(),
        spec_item_holds(g, w, item@),
        item@.end == i,
        item@.idx == item@.to.len(),
    ensures
        spec_chart_ok(g, w, chart_view(final(states)@)),
        spec_chart_closed(chart_view(final(states)@)),
        spec_chart_grows(chart_view(old(states)@), chart_view(final(states)@)),
        spec_same_below(chart_view(old(states)@), chart_view(final(states)@), i as int),
        spec_on_time(chart_view(final(states)@), i as int, cursor + 1),
        spec_first_precede(chart_view(final(states)@)),
        spec_completed_upto(
            chart_view(final(states)@),
            chart_view(old(states)@)[item@.origin as int],
            item@,
            i as nat,
            chart_view(old(states)@)[item@.origin as int].len() as int,
        ),
{
    let ghost first = chart_view(states@);
    let origin = item.origin;
    let m = states[origin].len();
    let ghost waiting = first[origin as int];
    let mut x: usize = 0;
    proof {
        lemma_due_start(first, i as int, cursor, item@, waiting);
        assert(spec_set_ok(g, w, first[origin as int], origin as int));
        lemma_grows_same(first);
    }
    while x < m
        invariant
            i < states@.len(),
            origin <= i,
            x <= m,
            origin == item@.origin,
            m == waiting.len(),
            waiting == first[origin as int],
            first == chart_view(old(states)@),
            0 <= cursor < first[i as int].len(),
            first[i as int][cursor].0 == item@,
            spec_distinct(waiting),
            spec_item_holds(g, w, item@),
            item@.end == i,
            item@.idx == item@.to.len(),
            spec_chart_ok(g, w, chart_view(states@)),
            spec_chart_closed(chart_view(states@)),
            spec_chart_grows(first, chart_view(states@)),
            spec_same_below(first, chart_view(states@), i as int),
            spec_due(chart_view(states@), i as int, cursor, item@, waiting, x as int),
            spec_first_precede(chart_view(states@)),
            spec_completed_upto(chart_view(states@), waiting, item@, i as nat, x as int),
        decreases m - x,
    {
        let ghost before = chart_view(states@);
        assert(before[origin as int].len() >= m);
        assert(before[origin as int][x as int].0 == waiting[x as int].0);
        assert(before[i as int][cursor].0 == item@);
        let parent = states[origin][x].0.clone();
        assert(parent@ == waiting[x as int].0);
        let mut stepped = false;
        if !parent.is_finished() {
            let expected = parent.elem();
            if item.from.same(&expected) {
                let (next, children) = parent.next(item.clone(), i);
                proof {
                    assert(spec_expects(waiting[x as int].0, item@.from));
                    lemma_completion_ready(
                        g,
                        w,
                        before,
                        i as int,
                        cursor,
                        item@,
                        waiting,
                        x as int,
                    );
                    lemma_completion_done(before, waiting, item@, i as int, x as int);
                    lemma_merge_grows(before, i as int, next@, packed_view(children@));
                    lemma_grows_chain(
                        first,
                        before,
                        before.update(
                            i as int,
                            spec_merge(before[i as int], next@, packed_view(children@)),
                        ),
                    );
                }
                merge_into(states, i, next, children, Ghost(g), Ghost(w));
                stepped = true;
            }
        }
        proof {
            if !stepped {
                lemma_due_more(before, i as int, cursor, item@, waiting, x as int);
                assert(!spec_expects(waiting[x as int].0, item@.from));
            }
        }
        x = x + 1;
    }
    proof {
        let last = chart_view(states@);
        assert(last[i as int][cursor].0 == first[i as int][cursor].0);
        lemma_due_end(last, i as int, cursor, item@, waiting, x as int);
    }
}

/// Builds the chart of a sentence: the set of position 0 holds the
/// alternatives of `start`; then, position by position and item by item in
/// the order in which the items came into the set, each item predicts,
/// scans or completes.
fn build_chart<T: GrammarTrait>(sentence: &Vec<T>, grammar: &Grammar<T>, start: T) -> (states: Vec<
    States<T>,
>)
    requires
        sentence@.len() < usize::MAX,
    ensures
        spec_chart_ok(grammar@, sentence@, chart_view(states@)),
        spec_chart_closed(chart_view(states@)),
        spec_saturated(grammar@, sentence@, start, chart_view(states@)),
        spec_first_precede(chart_view(states@)),
{
    let ghost g = grammar@;
    let ghost w = sentence@;
    let n = sentence.len();
    let mut states: Vec<States<T>> = Vec::new();
    let mut j: usize = 0;
    while j < n + 1
        invariant
            j <= n + 1,
            n == sentence@.len(),
            n < usize::MAX,
            states@.len() == j,
            forall|k: int| 0 <= k < j ==> (#[trigger] states@[k])@.len() == 0,
        decreases n + 1 - j,
    {
        states.push(Vec::new());
        j = j + 1;
    }
    assert(spec_chart_ok(g, w, chart_view(states@)));
    assert(spec_chart_closed(chart_view(states@)));
    assert(spec_on_time(chart_view(states@), 0, 0));
    assert(spec_first_precede(chart_view(states@)));
    predict(&mut states, grammar, start, 0, Ghost(w), Ghost(0));
    let ghost mut m: nat = 0;
    proof {
        m = lemma_grammar_bound(g);
    }
    let mut i: usize = 0;
    while i < n + 1
        invariant
            i <= n + 1,
            n == sentence@.len(),
            n < usize::MAX,
            g == grammar@,
            w == sentence@,
            spec_grammar_bound(g, m),
            spec_chart_ok(g, w, chart_view(states@)),
            spec_chart_closed(chart_view(states@)),
            spec_predicts(g, chart_view(states@), start, 0),
            spec_saturated_upto(g, w, chart_view(states@), i as int, 0),
            states@.len() == n + 1,
            i < n + 1 ==> spec_on_time(chart_view(states@), i as int, 0),
            spec_first_precede(chart_view(states@)),
        decreases n + 1 - i,
    {
        let mut cursor: usize = 0;
        while cursor < states[i].len()
            invariant
                i < n + 1,
                n == sentence@.len(),
                g == grammar@,
                w == sentence@,
                spec_grammar_bound(g, m),
                spec_chart_ok(g, w, chart_view(states@)),
                spec_chart_closed(chart_view(states@)),
                spec_predicts(g, chart_view(states@), start, 0),
                spec_saturated_upto(g, w, chart_view(states@), i as int, cursor as int),
                cursor <= states@[i as int]@.len(),
                states@.len() == n + 1,
                spec_on_time(chart_view(states@), i as int, cursor as int),
                spec_first_precede(chart_view(states@)),
            decreases spec_cells(m, i as int) - cursor,
        {
            let ghost before = chart_view(states@);
            proof {
                lemma_set_len(g, w, m, before[i as int], i as int);
            }
            let item = states[i][cursor].0.clone();
            proof {
                assert(before[i as int][cursor as int].0 == item@);
                lemma_find(before[i as int], item@);
            }
            if !item.is_finished() {
                let symbol = item.elem();
                if grammar.is_nonterm(&symbol) {
                    predict(&mut states, grammar, symbol, i, Ghost(w), Ghost(cursor as int));
                    proof {
                        lemma_time_passes(chart_view(states@), i as int, cursor as int, cursor + 1);
                    }
                } else if i < n && sentence[i].same(&symbol) {
                    scan(&mut states, &item, symbol, i, Ghost(g), Ghost(w), Ghost(cursor as int));
                } else {
                    proof {
                        lemma_time_passes(chart_view(states@), i as int, cursor as int, cursor + 1);
                    }
                }
            } else {
                complete(&mut states, &item, i, Ghost(g), Ghost(w), Ghost(cursor as int));
            }
            proof {
                let after = chart_view(states@);
                lemma_set_len(g, w, m, after[i as int], i as int);
                lemma_predicts_stays(g, before, after, start, 0);
                lemma_saturated_stays(g, w, before, after, i as int, cursor as int);
                assert(after[i as int][cursor as int].0 == item@);
                assert(spec_item_done(g, w, after, item@));
            }
            cursor = cursor + 1;
        }
        proof {
            if i < n {
                let c = chart_view(states@);
                assert forall|j: int, x: int| 0 <= j < c.len() && 0 <= x < c[j].len() implies (
                #[trigger] c[j][x]).0.end == j by {
                    assert(spec_set_ok(g, w, c[j], j));
                }
                lemma_next_set(c, i as int, cursor as int);
            }
        }
        i = i + 1;
    }
    states
}

/// The place in `states` of what a derivation stands for, as far as a
/// walk follows it: a completed item that `states` holds. Where `elide`,
/// an item that has matched nothing is not followed.
pub open spec fn spec_target<T>(
    states: Seq<EntryModel<T>>,
    d: DerivationModel<T>,
    elide: bool,
) -> Seq<int> {
    match d {
        DerivationModel::ScannedFrom { symbol, idx } => Seq::empty(),
        DerivationModel::CompletedFrom { state } => if elide && state.idx == 0 {
            Seq::empty()
        } else {
            match spec_find(states, state) {
                Some(i) => seq![i],
                None => Seq::empty(),
            }
        },
    }
}

/// The places that a walk follows from a packed node: that of its left
/// child, elided or not, then that of its right child.
pub open spec fn spec_node_targets<T>(
    states: Seq<EntryModel<T>>,
    node: PackedModel<T>,
    elide: bool,
) -> Seq<int> {
    spec_target(states, node.left_child, elide) + match node.right_child {
        Some(d) => spec_target(states, d, false),
        None => Seq::empty(),
    }
}

/// The places that a walk follows from the first `upto` of the packed
/// nodes `nodes`.
pub open spec fn spec_nodes_targets<T>(
    states: Seq<EntryModel<T>>,
    nodes: Seq<PackedModel<T>>,
    upto: nat,
    elide: bool,
) -> Seq<int>
    decreases upto,
{
    if upto == 0 || upto > nodes.len() {
        Seq::empty()
    } else {
        spec_nodes_targets(states, nodes, (upto - 1) as nat, elide) + spec_node_targets(
            states,
            nodes[upto - 1],
            elide,
        )
    }
}

/// How many packed nodes of an item a walk follows: all of them, or the
/// first alone.
pub open spec fn spec_followed(len: nat, all: bool) -> nat {
    if all || len == 0 {
        len
    } else {
        1
    }
}

/// `seen` with those of `places` behind it that it does not hold, in
/// order.
pub open spec fn spec_add_all(seen: Seq<int>, places: Seq<int>) -> Seq<int>
    decreases places.len(),
{
    if places.len() == 0 {
        seen
    } else {
        let before = spec_add_all(seen, places.drop_last());
        if before.contains(places.last()) {
            before
        } else {
            before.push(places.last())
        }
    }
}

/// The places that a walk follows from the item at the place `i`.
pub open spec fn spec_place_targets<T>(
    states: Seq<EntryModel<T>>,
    i: int,
    all: bool,
    elide: bool,
) -> Seq<int> {
    spec_nodes_targets(states, states[i].1, spec_followed(states[i].1.len(), all), elide)
}

/// The walk that has visited `seen`, of which the first `cursor` were
/// followed: the places of all items it reaches, in the order in which it
/// meets them, breadth first.
pub open spec fn spec_walk<T>(
    states: Seq<EntryModel<T>>,
    seen: Seq<int>,
    cursor: nat,
    all: bool,
    elide: bool,
) -> Seq<int>
    decreases states.len() - cursor,
{
    if cursor >= seen.len() || cursor >= states.len() || !(0 <= seen[cursor as int]
        < states.len()) {
        seen
    } else {
        spec_walk(
            states,
            spec_add_all(seen, spec_place_targets(states, seen[cursor as int], all, elide)),
            cursor + 1,
            all,
            elide,
        )
    }
}

/// The places in `states` of the items that a walk from `root` reaches, in
/// the order in which it meets them, breadth first. It follows the
/// completed items of all packed nodes of an item, or of the first alone,
/// as far as `states` holds them.
pub open spec fn spec_order<T>(
    states: Seq<EntryModel<T>>,
    root: StateModel<T>,
    all: bool,
    elide: bool,
) -> Seq<int> {
    match spec_find(states, root) {
        Some(i) => spec_walk(states, seq![i], 0, all, elide),
        None => Seq::empty(),
    }
}

/// Adding places in two runs is adding them in one.
pub proof fn lemma_add_all_joined(seen: Seq<int>, a: Seq<int>, b: Seq<int>)
    ensures
        spec_add_all(seen, a + b) == spec_add_all(spec_add_all(seen, a), b),
    decreases b.len(),
{
    if b.len() == 0 {
        assert(a + b =~= a);
    } else {
        lemma_add_all_joined(seen, a, b.drop_last());
        assert((a + b).drop_last() =~= a + b.drop_last());
    }
}

/// Places as numbers.
pub open spec fn places_view(v: Seq<usize>) -> Seq<int> {
    Seq::new(v.len(), |i: int| v[i] as int)
}

/// Whether `v` holds places of `n` entries, none of them twice.
pub open spec fn spec_places(v: Seq<int>, n: nat) -> bool {
    &&& v.no_duplicates()
    &&& forall|x: int| 0 <= x < v.len() ==> 0 <= #[trigger] v[x] < n
}

/// Places of `n` entries, none of them twice, are `n` at most.
pub proof fn lemma_places_len(v: Seq<int>, n: nat)
    requires
        spec_places(v, n),
    ensures
        v.len() <= n,
{
    v.unique_seq_to_set();
    vstd::set_lib::lemma_int_range(0, n as int);
    assert forall|c: int| v.to_set().contains(c) implies vstd::set_lib::set_int_range(
        0,
        n as int,
    ).contains(c) by {
        let x = choose|x: int| 0 <= x < v.len() && v[x] == c;
    }
    vstd::set_lib::lemma_len_subset(v.to_set(), vstd::set_lib::set_int_range(0, n as int));
}

/// Adding places to places keeps what was there where it was, and adds
/// no place twice.
pub proof fn lemma_add_all_places(seen: Seq<int>, places: Seq<int>, n: nat)
    requires
        spec_places(seen, n),
        spec_in_range(places, n),
    ensures
        spec_places(spec_add_all(seen, places), n),
        seen.len() <= spec_add_all(seen, places).len(),
        forall|x: int| 0 <= x < seen.len() ==> spec_add_all(seen, places)[x] == seen[x],
    decreases places.len(),
{
    if places.len() > 0 {
        lemma_add_all_places(seen, places.drop_last(), n);
    }
}

/// Whether every number of `v` is a place of `n` entries.
pub open spec fn spec_in_range(v: Seq<int>, n: nat) -> bool {
    forall|x: int| 0 <= x < v.len() ==> 0 <= #[trigger] v[x] < n
}

/// What a walk follows from a derivation is a place of the entries.
pub proof fn lemma_target_places<T>(states: Seq<EntryModel<T>>, d: DerivationModel<T>, elide: bool)
    ensures
        spec_in_range(spec_target(states, d, elide), states.len()),
{
    match d {
        DerivationModel::ScannedFrom { symbol, idx } => {},
        DerivationModel::CompletedFrom { state } => {
            lemma_find(states, state);
        },
    }
}

/// What a walk follows from a packed node are places of the entries.
pub proof fn lemma_node_targets_places<T>(
    states: Seq<EntryModel<T>>,
    node: PackedModel<T>,
    elide: bool,
)
    ensures
        spec_in_range(spec_node_targets(states, node, elide), states.len()),
{
    lemma_target_places(states, node.left_child, elide);
    match node.right_child {
        Some(d) => {
            lemma_target_places(states, d, false);
        },
        None => {},
    }
}

/// What a walk follows from packed nodes are places of the entries.
pub proof fn lemma_nodes_targets_places<T>(
    states: Seq<EntryModel<T>>,
    nodes: Seq<PackedModel<T>>,
    upto: nat,
    elide: bool,
)
    ensures
        spec_in_range(spec_nodes_targets(states, nodes, upto, elide), states.len()),
    decreases upto,
{
    if upto == 0 || upto > nodes.len() {
    } else {
        lemma_nodes_targets_places(states, nodes, (upto - 1) as nat, elide);
        lemma_node_targets_places(states, nodes[upto - 1], elide);
    }
}

/// Adding one place adds it behind the others, unless it is among them.
pub proof fn lemma_add_one(seen: Seq<int>, place: int)
    ensures
        spec_add_all(seen, seq![place]) == if seen.contains(place) {
            seen
        } else {
            seen.push(place)
        },
{
    reveal_with_fuel(spec_add_all, 3);
    assert(seq![place].drop_last() =~= Seq::<int>::empty());
    assert(seq![place].last() == place);
}

/// Adds a place to a list that does not hold it.
fn add_place(seen: &mut Vec<usize>, place: usize)
    ensures
        places_view(final(seen)@) == spec_add_all(
            places_view(old(seen)@),
            seq![place as int],
        ),
{
    let ghost before = places_view(seen@);
    let mut x: usize = 0;
    while x < seen.len()
        invariant
            x <= seen@.len(),
            seen@ == old(seen)@,
            before == places_view(seen@),
            forall|y: int| 0 <= y < x ==> seen@[y] != place,
        decreases seen@.len() - x,
    {
        if seen[x] == place {
            proof {
                assert(before[x as int] == place as int);
                lemma_add_one(before, place as int);
            }
            return ;
        }
        x = x + 1;
    }
    proof {
        assert(!before.contains(place as int));
        lemma_add_one(before, place as int);
    }
    seen.push(place);
    assert(places_view(seen@) =~= before.push(place as int));
}

/// Follows a derivation in a walk: adds the place of its item, if it is a
/// completed item that `states` holds and the walk has not met.
fn follow<T: GrammarTrait>(
    states: &States<T>,
    d: &Derivation<T>,
    elide: bool,
    seen: &mut Vec<usize>,
)
    ensures
        places_view(final(seen)@) == spec_add_all(
            places_view(old(seen)@),
            spec_target(states_view(states@), d@, elide),
        ),
{
    match d {
        Derivation::ScannedFrom { symbol, idx } => {},
        Derivation::CompletedFrom { state } => {
            if !(elide && state.idx == 0) {
                match find_item(states, state) {
                    Some(i) => {
                        add_place(seen, i);
                    },
                    None => {},
                }
            }
        },
    }
}

/// Walks the forest from `root`, breadth first: the places in `states` of
/// the items it reaches, in the order in which it meets them. From each
/// item it follows the completed items of all its packed nodes, or of the
/// first alone, as far as `states` holds them; where `elide`, not the
/// left child of a node that has matched nothing.
pub fn walk<T: GrammarTrait>(
    states: &States<T>,
    root: &EarleyState<T>,
    all: bool,
    elide: bool,
) -> (r: Vec<usize>)
    ensures
        places_view(r@) == spec_order(states_view(states@), root@, all, elide),
        spec_places(places_view(r@), states@.len() as nat),
{
    let ghost sv = states_view(states@);
    let mut seen: Vec<usize> = Vec::new();
    match find_item(states, root) {
        None => {
            assert(places_view(seen@) =~= Seq::<int>::empty());
            return seen;
        },
        Some(i) => {
            seen.push(i);
            proof {
                lemma_find(sv, root@);
                assert(places_view(seen@) =~= seq![i as int]);
            }
        },
    }
    let mut cursor: usize = 0;
    while cursor < seen.len()
        invariant
            sv == states_view(states@),
            spec_places(places_view(seen@), states@.len() as nat),
            spec_walk(sv, places_view(seen@), cursor as nat, all, elide)
                == spec_order(sv, root@, all, elide),
        decreases states@.len() - cursor,
    {
        let ghost at = places_view(seen@);
        proof {
            lemma_places_len(at, states@.len() as nat);
        }
        let i = seen[cursor];
        assert(at[cursor as int] == i);
        let nodes = &states[i].1;
        let followed = if all || nodes.len() == 0 {
            nodes.len()
        } else {
            1
        };
        let mut y: usize = 0;
        assert(spec_nodes_targets(sv, packed_view(nodes@), 0, elide) =~= Seq::<int>::empty());
        while y < followed
            invariant
                y <= followed <= nodes@.len(),
                sv == states_view(states@),
                i < states@.len(),
                nodes == &states@[i as int].1,
                spec_places(at, states@.len() as nat),
                places_view(seen@) == spec_add_all(
                    at,
                    spec_nodes_targets(sv, packed_view(nodes@), y as nat, elide),
                ),
            decreases followed - y,
        {
            let ghost done = spec_nodes_targets(sv, packed_view(nodes@), y as nat, elide);
            let node = &nodes[y];
            let ghost left = spec_target(sv, node@.left_child, elide);
            let ghost right = match node@.right_child {
                Some(d) => spec_target(sv, d, false),
                None => Seq::<int>::empty(),
            };
            follow(states, &node.left_child, elide, &mut seen);
            match &node.right_child {
                Some(d) => {
                    follow(states, d, false, &mut seen);
                },
                None => {
                    assert(spec_add_all(places_view(seen@), right)
                        == places_view(seen@));
                },
            }
            proof {
                assert(packed_view(nodes@)[y as int] == node@);
                lemma_add_all_joined(at, done, left);
                lemma_add_all_joined(at, done + left, right);
                assert(done + left + right =~= done + (left + right));
            }
            y = y + 1;
        }
        proof {
            let targets = spec_nodes_targets(
                sv,
                packed_view(nodes@),
                spec_followed(nodes@.len() as nat, all),
                elide,
            );
            lemma_nodes_targets_places(
                sv,
                packed_view(nodes@),
                spec_followed(nodes@.len() as nat, all),
                elide,
            );
            lemma_add_all_places(at, targets, states@.len() as nat);
            assert(sv[i as int].1 == packed_view(nodes@));
        }
        cursor = cursor + 1;
    }
    seen
}

/// The packed nodes of the item `s` in the first set, from `from` on, that
/// holds it.
pub open spec fn spec_find_state<T>(
    c: Seq<Seq<EntryModel<T>>>,
    s: StateModel<T>,
    from: nat,
) -> Option<Seq<PackedModel<T>>>
    decreases c.len() - from,
{
    if from >= c.len() {
        None
    } else {
        match spec_find(c[from as int], s) {
            Some(i) => Some(c[from as int][i].1),
            None => spec_find_state(c, s, from + 1),
        }
    }
}

/// The packed nodes of an item in a chart: those of the first set that
/// holds the item.
pub fn find_state<T: GrammarTrait>(state: &EarleyState<T>, states: &Vec<States<T>>) -> (r: Option<
    Children<T>,
>)
    ensures
        match r {
            Some(nodes) => spec_find_state(chart_view(states@), state@, 0) == Some(
                packed_view(nodes@),
            ),
            None => spec_find_state(chart_view(states@), state@, 0) is None,
        },
{
    let mut j: usize = 0;
    while j < states.len()
        invariant
            j <= states@.len(),
            spec_find_state(chart_view(states@), state@, 0) == spec_find_state(
                chart_view(states@),
                state@,
                j as nat,
            ),
        decreases states@.len() - j,
    {
        match find_item(&states[j], state) {
            Some(i) => {
                proof {
                    lemma_find(chart_view(states@)[j as int], state@);
                }
                return Some(copy_children(&states[j][i].1));
            },
            None => {},
        }
        j = j + 1;
    }
    None
}

/// The entries of the first `upto` sets of a chart, in a row.
pub open spec fn spec_flat<T>(c: Seq<Seq<EntryModel<T>>>, upto: nat) -> Seq<EntryModel<T>>
    decreases upto,
{
    if upto == 0 || upto > c.len() {
        Seq::empty()
    } else {
        spec_flat(c, (upto - 1) as nat) + c[upto - 1]
    }
}

/// The entries of `v` at the places `order`.
pub open spec fn spec_pick<T>(v: Seq<EntryModel<T>>, order: Seq<int>) -> Seq<EntryModel<T>> {
    Seq::new(order.len(), |x: int| v[order[x]])
}

/// A copy of the entries of a chart, in a row.
fn flatten<T: GrammarTrait>(states: &Vec<States<T>>) -> (r: States<T>)
    ensures
        states_view(r@) == spec_flat(chart_view(states@), states@.len() as nat),
{
    let ghost c = chart_view(states@);
    let mut flat: States<T> = Vec::new();
    let mut j: usize = 0;
    assert(states_view(flat@) =~= spec_flat(c, 0));
    while j < states.len()
        invariant
            j <= states@.len(),
            c == chart_view(states@),
            states_view(flat@) == spec_flat(c, j as nat),
        decreases states@.len() - j,
    {
        let ghost before = states_view(flat@);
        let mut x: usize = 0;
        assert(before + c[j as int].take(0) =~= before);
        while x < states[j].len()
            invariant
                j < states@.len(),
                x <= states@[j as int]@.len(),
                c == chart_view(states@),
                states_view(flat@) == before + c[j as int].take(x as int),
            decreases states@[j as int]@.len() - x,
        {
            let state = states[j][x].0.clone();
            let nodes = copy_children(&states[j][x].1);
            assert(states_view(flat@.push((state, nodes))) =~= states_view(flat@).push(
                c[j as int][x as int],
            ));
            assert(before + c[j as int].take(x + 1) =~= (before + c[j as int].take(
                x as int,
            )).push(c[j as int][x as int]));
            flat.push((state, nodes));
            x = x + 1;
        }
        assert(c[j as int].take(x as int) =~= c[j as int]);
        j = j + 1;
    }
    flat
}

/// The shared packed parse forest of a sentence: the items that take part
/// in its derivations, each with the ways in which it was derived, and the
/// item that the forest hangs from.
pub struct EarleySppf<T: GrammarTrait> {
    pub states: States<T>,
    pub root: EarleyState<T>,
}

/// The forest that hangs from `start_state` in a chart: the items that a
/// walk from it reaches over all packed nodes, in the order in which it
/// meets them, each with its packed nodes.
pub fn create_sppf<T: GrammarTrait>(start_state: &EarleyState<T>, states: &Vec<States<T>>) -> (r:
    EarleySppf<T>)
    ensures
        r.root@ == start_state@,
        states_view(r.states@) == spec_pick(
            spec_flat(chart_view(states@), states@.len() as nat),
            spec_order(
                spec_flat(chart_view(states@), states@.len() as nat),
                start_state@,
                true,
                false,
            ),
        ),
{
    let flat = flatten(states);
    let order = walk(&flat, start_state, true, false);
    let ghost picked = spec_pick(states_view(flat@), places_view(order@));
    let mut new_states: States<T> = Vec::new();
    let mut x: usize = 0;
    assert(states_view(new_states@) =~= picked.take(0));
    while x < order.len()
        invariant
            x <= order@.len(),
            spec_places(places_view(order@), flat@.len() as nat),
            picked == spec_pick(states_view(flat@), places_view(order@)),
            states_view(new_states@) == picked.take(x as int),
        decreases order@.len() - x,
    {
        let i = order[x];
        assert(places_view(order@)[x as int] == i);
        let state = flat[i].0.clone();
        let nodes = copy_children(&flat[i].1);
        assert(states_view(flat@)[i as int] == (state@, packed_view(nodes@)));
        assert(picked[x as int] == states_view(flat@)[i as int]);
        assert(states_view(new_states@.push((state, nodes))) =~= states_view(new_states@).push(
            (state@, packed_view(nodes@)),
        ));
        assert(picked.take(x + 1) =~= picked.take(x as int).push(picked[x as int]));
        new_states.push((state, nodes));
        x = x + 1;
    }
    assert(picked.take(x as int) =~= picked);
    EarleySppf { states: new_states, root: start_state.clone() }
}

/// The first item, in the order `order`, that has more than one packed
/// node.
pub open spec fn spec_first_ambiguous<T>(
    states: Seq<EntryModel<T>>,
    order: Seq<int>,
    from: nat,
) -> Option<StateModel<T>>
    decreases order.len() - from,
{
    if from >= order.len() {
        None
    } else if states[order[from as int]].1.len() > 1 {
        Some(states[order[from as int]].0)
    } else {
        spec_first_ambiguous(states, order, from + 1)
    }
}

/// The earliest ambiguity under `root`: the first item with more than one
/// packed node that a walk from `root` over the first packed node of each
/// item meets.
pub open spec fn spec_ambiguity<T>(states: Seq<EntryModel<T>>, root: StateModel<T>) -> Option<
    StateModel<T>,
> {
    spec_first_ambiguous(states, spec_order(states, root, false, false), 0)
}

impl<T: GrammarTrait> EarleyState<T> {
    /// Walks the forest under this item, breadth first, over the first
    /// packed node of each item, and hands back the first item met that
    /// has more than one packed node. `None` says that the walk met no
    /// such item.
    pub fn find_ambiguity(&self, states: &States<T>) -> (r: Option<EarleyState<T>>)
        ensures
            match r {
                Some(item) => spec_ambiguity(states_view(states@), self@) == Some(item@),
                None => spec_ambiguity(states_view(states@), self@) is None,
            },
    {
        let order = walk(states, self, false, false);
        let mut x: usize = 0;
        while x < order.len()
            invariant
                x <= order@.len(),
                spec_places(places_view(order@), states@.len() as nat),
                spec_ambiguity(states_view(states@), self@) == spec_first_ambiguous(
                    states_view(states@),
                    places_view(order@),
                    x as nat,
                ),
            decreases order@.len() - x,
        {
            let i = order[x];
            assert(places_view(order@)[x as int] == i);
            if states[i].1.len() > 1 {
                return Some(states[i].0.clone());
            }
            x = x + 1;
        }
        None
    }
}

/// A derivation tree as its edges, each from an item to one of the
/// children of its first packed node, and its root.
#[derive(Debug)]
pub struct EarleyTree<T: GrammarTrait> {
    pub edges: Vec<(Derivation<T>, Derivation<T>)>,
    pub root: Derivation<T>,
}

/// An edge of a tree as a value.
pub type EdgeModel<T> = (DerivationModel<T>, DerivationModel<T>);

/// The views of edges, in order.
pub open spec fn edges_view<T: GrammarTrait>(v: Seq<(Derivation<T>, Derivation<T>)>) -> Seq<
    EdgeModel<T>,
> {
    Seq::new(v.len(), |i: int| (v[i].0@, v[i].1@))
}

/// The edges from an item to the children of its first packed node: to
/// the left child, unless that is an item that has matched nothing, then
/// to the right child.
pub open spec fn spec_item_edges<T>(entry: EntryModel<T>) -> Seq<EdgeModel<T>> {
    if entry.1.len() == 0 {
        Seq::empty()
    } else {
        let parent = DerivationModel::CompletedFrom { state: entry.0 };
        let node = entry.1[0];
        let left = match node.left_child {
            DerivationModel::CompletedFrom { state } => if state.idx == 0 {
                Seq::empty()
            } else {
                seq![(parent, node.left_child)]
            },
            DerivationModel::ScannedFrom { symbol, idx } => seq![(parent, node.left_child)],
        };
        let right = match node.right_child {
            Some(d) => seq![(parent, d)],
            None => Seq::empty(),
        };
        left + right
    }
}

/// The edges from the first `upto` of the items at the places `order`.
pub open spec fn spec_edges<T>(states: Seq<EntryModel<T>>, order: Seq<int>, upto: nat) -> Seq<
    EdgeModel<T>,
>
    decreases upto,
{
    if upto == 0 || upto > order.len() {
        Seq::empty()
    } else {
        spec_edges(states, order, (upto - 1) as nat) + spec_item_edges(states[order[upto - 1]])
    }
}

impl<T: GrammarTrait> EarleySppf<T> {
    /// Projects the forest onto one tree: walks from the root, breadth
    /// first, over the first packed node of each item, and hands back the
    /// edges from each item met to the children of that node. An item that
    /// has matched nothing is left out where it is a left child.
    pub fn to_tree(&self) -> (r: EarleyTree<T>)
        ensures
            r.root@ == (DerivationModel::CompletedFrom { state: self.root@ }),
            edges_view(r.edges@) == spec_edges(
                states_view(self.states@),
                spec_order(states_view(self.states@), self.root@, false, true),
                spec_order(states_view(self.states@), self.root@, false, true).len(),
            ),
    {
        let ghost sv = states_view(self.states@);
        let order = walk(&self.states, &self.root, false, true);
        let mut tree_states: Vec<(Derivation<T>, Derivation<T>)> = Vec::new();
        let mut x: usize = 0;
        assert(edges_view(tree_states@) =~= spec_edges(sv, places_view(order@), 0));
        while x < order.len()
            invariant
                x <= order@.len(),
                sv == states_view(self.states@),
                spec_places(places_view(order@), self.states@.len() as nat),
                edges_view(tree_states@) == spec_edges(sv, places_view(order@), x as nat),
            decreases order@.len() - x,
        {
            let i = order[x];
            assert(places_view(order@)[x as int] == i);
            let ghost before = edges_view(tree_states@);
            let ghost entry = sv[i as int];
            if self.states[i].1.len() > 0 {
                let packed_node = &self.states[i].1[0];
                assert(entry.1[0] == packed_node@);
                match &packed_node.left_child {
                    Derivation::CompletedFrom { state } => {
                        if state.idx != 0 {
                            let edge = (
                                Derivation::CompletedFrom { state: self.states[i].0.clone() },
                                Derivation::CompletedFrom { state: state.clone() },
                            );
                            assert(edges_view(tree_states@.push(edge)) =~= before.push(
                                (edge.0@, edge.1@),
                            ));
                            tree_states.push(edge);
                        }
                    },
                    Derivation::ScannedFrom { symbol, idx } => {
                        let edge = (
                            Derivation::CompletedFrom { state: self.states[i].0.clone() },
                            Derivation::ScannedFrom { symbol: *symbol, idx: *idx },
                        );
                        assert(edges_view(tree_states@.push(edge)) =~= before.push(
                            (edge.0@, edge.1@),
                        ));
                        tree_states.push(edge);
                    },
                }
                let ghost middle = edges_view(tree_states@);
                match &packed_node.right_child {
                    Some(d) => {
                        let edge = (
                            Derivation::CompletedFrom { state: self.states[i].0.clone() },
                            d.clone(),
                        );
                        assert(edges_view(tree_states@.push(edge)) =~= middle.push(
                            (edge.0@, edge.1@),
                        ));
                        tree_states.push(edge);
                    },
                    None => {},
                }
            }
            assert(edges_view(tree_states@) =~= before + spec_item_edges(entry));
            x = x + 1;
        }
        EarleyTree {
            edges: tree_states,
            root: Derivation::CompletedFrom { state: self.root.clone() },
        }
    }
}

/// The item that accepts the sentence `w`: the first alternative of the
/// first rule of `start`, finished, from the start of the sentence to its
/// end. There is none where `start` has no alternative.
pub open spec fn spec_accepting<T>(g: Seq<RuleModel<T>>, w: Seq<T>, start: T) -> Option<
    StateModel<T>,
> {
    match spec_start_alternative(g, start) {
        Some(rhs) => Some(
            StateModel { from: start, to: rhs, origin: 0, end: w.len(), idx: rhs.len() },
        ),
        None => None,
    }
}

/// Whether `c` is a chart by which the sentence `w` is rejected: a sound
/// and saturated chart that does not hold the accepting item.
pub open spec fn spec_rejects<T>(
    g: Seq<RuleModel<T>>,
    w: Seq<T>,
    start: T,
    c: Seq<Seq<EntryModel<T>>>,
) -> bool {
    &&& spec_chart_ok(g, w, c)
    &&& spec_saturated(g, w, start, c)
    &&& spec_accepting(g, w, start) matches Some(s) ==> !spec_present(c, s)
}

/// Parses a sentence: builds the chart, and, where the chart holds the
/// finished item of the first alternative of the start symbol over the
/// whole sentence, hands back the forest that hangs from that item. The
/// sentence then has a derivation tree from the start symbol by that
/// alternative. The forest holds the items that can be reached from that
/// item, each once and each holding of the sentence; each packed node of
/// an item is the node of a step that yields the item, none stands there
/// twice, and, for a grammar without empty alternatives, an item has the
/// node of every step that yields it and whose items hold of the sentence.
/// Where there is no forest, there is a sound chart that holds the
/// alternatives of the start symbol and all that follows from its items by
/// prediction, by scanning, and by completion of items that span a symbol
/// at least, and yet not the accepting item; and for a grammar without
/// empty alternatives the sentence then has no such derivation tree.
pub fn earley_parser<T: GrammarTrait>(sentence: Vec<T>, grammar: &Grammar<T>) -> (r: Option<
    EarleySppf<T>,
>)
    requires
        sentence@.len() < usize::MAX,
    ensures
        match r {
            Some(sppf) => {
                &&& call_ensures(T::start_sym, (), sppf.root.from)
                &&& spec_accepting(grammar@, sentence@, sppf.root.from) == Some(sppf.root@)
                &&& exists|t: ParseTree<T>|
                    spec_derives(grammar@, sppf.root.from, sppf.root@.to, sentence@, t)
                &&& crate::parser::forest::spec_forest_ok(
                    grammar@,
                    sentence@,
                    states_view(sppf.states@),
                    sppf.root@,
                )
            },
            None => exists|start: T, c: Seq<Seq<EntryModel<T>>>|
                call_ensures(T::start_sym, (), start) && #[trigger] spec_rejects(
                    grammar@,
                    sentence@,
                    start,
                    c,
                ) && (crate::parser::complete::spec_plain(grammar@)
                    ==> crate::parser::complete::spec_underivable(grammar@, sentence@, start)),
        },
{
    let start = T::start_sym();
    let states = build_chart(&sentence, grammar, start);
    let rules = grammar.get_rules(start);
    let ghost c = chart_view(states@);
    if rules.len() == 0 {
        assert(spec_rejects(grammar@, sentence@, start, c));
        return None;
    }
    proof {
        assert(rules_view(rules@)[0] == rules@[0]@);
    }
    if rules[0].right_hand.len() == 0 {
        assert(spec_rejects(grammar@, sentence@, start, c));
        return None;
    }
    let start_rule = copy_syms(&rules[0].right_hand[0]);
    let idx = start_rule.len();
    let end = sentence.len();
    let end_state = EarleyState { from: start, to: start_rule, origin: 0, end, idx };
    proof {
        assert(rules_view(rules@)[0] == rules@[0]@);
        assert(rules@[0]@.right_hand[0] == rules@[0].right_hand@[0]@);
    }
    match find_item(&states[sentence.len()], &end_state) {
        Some(i) => {
            proof {
                let set = chart_view(states@)[sentence@.len() as int];
                lemma_find(set, end_state@);
                assert(spec_item_holds(grammar@, sentence@, set[i as int].0));
                lemma_accepted_has_tree(grammar@, sentence@, end_state@);
                crate::parser::forest::lemma_forest_ok(
                    grammar@,
                    sentence@,
                    chart_view(states@),
                    end_state@,
                );
            }
            Some(create_sppf(&end_state, &states))
        },
        None => {
            proof {
                assert(spec_rejects(grammar@, sentence@, start, c));
                if crate::parser::complete::spec_plain(grammar@) {
                    crate::parser::complete::lemma_rejected_has_no_tree(
                        grammar@,
                        sentence@,
                        start,
                        c,
                    );
                }
            }
            None
        },
    }
}

} // verus!
