//! Items and sets of items as text.

use crate::parser::prs::{
    edges_view, packed_view, states_view, Children, Derivation, DerivationModel, EarleyState,
    EarleyTree, EdgeModel, EntryModel, Grammar, GrammarTrait, PackedModel, PackedNode, StateModel,
    States,
};
use crate::text::{from_chars, push_decimal, push_text, spec_decimal};
use vstd::prelude::*;

verus! {

/// The texts `parts`, each followed by `"_"`.
pub open spec fn spec_underscored(parts: Seq<Seq<char>>) -> Seq<char>
    decreases parts.len(),
{
    if parts.len() == 0 {
        Seq::empty()
    } else {
        spec_underscored(parts.drop_last()) + parts.last() + seq!['_']
    }
}

/// The identifier of an item whose symbols have the texts `from` and
/// `to`: the texts and then the origin, the end and the progress, with
/// `"_"` between them.
pub open spec fn spec_state_id(
    from: Seq<char>,
    to: Seq<Seq<char>>,
    origin: nat,
    end: nat,
    idx: nat,
) -> Seq<char> {
    from + seq!['_'] + spec_underscored(to) + spec_decimal(origin) + seq!['_'] + spec_decimal(end)
        + seq!['_'] + spec_decimal(idx)
}

/// The identifier of an item, made of the texts of its symbols.
pub fn state_id_text(from: &str, to: &Vec<String>, origin: usize, end: usize, idx: usize) -> (r:
    String)
    ensures
        r@ == spec_state_id(
            from@,
            Seq::new(to@.len(), |i: int| to@[i]@),
            origin as nat,
            end as nat,
            idx as nat,
        ),
{
    let ghost parts = Seq::new(to@.len(), |i: int| to@[i]@);
    let mut out: Vec<char> = Vec::new();
    push_text(&mut out, from);
    out.push('_');
    let ghost head = out@;
    let mut i: usize = 0;
    assert(out@ =~= head + spec_underscored(parts.take(0)));
    while i < to.len()
        invariant
            i <= to@.len(),
            parts == Seq::new(to@.len(), |i: int| to@[i]@),
            out@ == head + spec_underscored(parts.take(i as int)),
        decreases to@.len() - i,
    {
        push_text(&mut out, to[i].as_str());
        out.push('_');
        proof {
            assert(parts.take(i + 1).drop_last() =~= parts.take(i as int));
            assert(parts.take(i + 1).last() == to@[i as int]@);
            assert(out@ =~= head + spec_underscored(parts.take(i + 1)));
        }
        i = i + 1;
    }
    assert(parts.take(i as int) =~= parts);
    push_decimal(&mut out, origin as u128);
    out.push('_');
    push_decimal(&mut out, end as u128);
    out.push('_');
    push_decimal(&mut out, idx as u128);
    assert(out@ =~= spec_state_id(from@, parts, origin as nat, end as nat, idx as nat));
    from_chars(&out)
}

/// The texts `parts[from..upto]`, each followed by a blank.
pub open spec fn spec_before_dot(parts: Seq<Seq<char>>, upto: int) -> Seq<char>
    decreases upto,
{
    if upto <= 0 || upto > parts.len() {
        Seq::empty()
    } else {
        spec_before_dot(parts, upto - 1) + parts[upto - 1] + seq![' ']
    }
}

/// The texts `parts[from..upto]`, each after a blank.
pub open spec fn spec_after_dot(parts: Seq<Seq<char>>, from: int, upto: int) -> Seq<char>
    decreases upto - from,
{
    if upto <= from || from < 0 || upto > parts.len() {
        Seq::empty()
    } else {
        spec_after_dot(parts, from, upto - 1) + seq![' '] + parts[upto - 1]
    }
}

/// An item whose symbols have the texts `from` and `to` as a dotted rule:
/// the symbol, an arrow, the alternative with `*` where the dot stands,
/// then the origin and the end.
pub open spec fn spec_state_repr(
    from: Seq<char>,
    to: Seq<Seq<char>>,
    origin: nat,
    end: nat,
    idx: nat,
) -> Seq<char> {
    from + seq![' ', '-', '>', ' '] + spec_before_dot(to, idx as int) + seq!['*'] + spec_after_dot(
        to,
        idx as int,
        to.len() as int,
    ) + seq![',', ' '] + spec_decimal(origin) + seq![',', ' '] + spec_decimal(end)
}

/// An item as a dotted rule, made of the texts of its symbols.
pub fn state_repr_text(from: &str, to: &Vec<String>, origin: usize, end: usize, idx: usize) -> (r:
    String)
    requires
        idx <= to@.len(),
    ensures
        r@ == spec_state_repr(
            from@,
            Seq::new(to@.len(), |i: int| to@[i]@),
            origin as nat,
            end as nat,
            idx as nat,
        ),
{
    let ghost parts = Seq::new(to@.len(), |i: int| to@[i]@);
    let mut out: Vec<char> = Vec::new();
    push_text(&mut out, from);
    out.push(' ');
    out.push('-');
    out.push('>');
    out.push(' ');
    let ghost head = out@;
    assert(head =~= from@ + seq![' ', '-', '>', ' ']);
    let mut i: usize = 0;
    assert(out@ =~= head + spec_before_dot(parts, 0));
    while i < idx
        invariant
            i <= idx <= to@.len(),
            parts == Seq::new(to@.len(), |i: int| to@[i]@),
            out@ == head + spec_before_dot(parts, i as int),
        decreases idx - i,
    {
        push_text(&mut out, to[i].as_str());
        out.push(' ');
        assert(out@ =~= head + spec_before_dot(parts, i + 1));
        i = i + 1;
    }
    out.push('*');
    let ghost middle = out@;
    assert(out@ =~= middle + spec_after_dot(parts, idx as int, idx as int));
    while i < to.len()
        invariant
            idx <= i <= to@.len(),
            parts == Seq::new(to@.len(), |i: int| to@[i]@),
            out@ == middle + spec_after_dot(parts, idx as int, i as int),
        decreases to@.len() - i,
    {
        out.push(' ');
        push_text(&mut out, to[i].as_str());
        assert(out@ =~= middle + spec_after_dot(parts, idx as int, i + 1));
        i = i + 1;
    }
    out.push(',');
    out.push(' ');
    push_decimal(&mut out, origin as u128);
    out.push(',');
    out.push(' ');
    push_decimal(&mut out, end as u128);
    assert(out@ =~= spec_state_repr(from@, parts, origin as nat, end as nat, idx as nat));
    from_chars(&out)
}

/// Whether `text` is a text that the symbol `sym` gives for itself under
/// the symbol `parent`.
pub open spec fn spec_rep<T: GrammarTrait>(sym: T, parent: Option<T>, text: Seq<char>) -> bool {
    exists|s: String| #[trigger] call_ensures(T::to_node_rep, (&sym, parent), s) && s@ == text
}

/// Whether `texts` are texts that the symbols `syms` give for themselves,
/// in order.
pub open spec fn spec_reps<T: GrammarTrait>(syms: Seq<T>, texts: Seq<Seq<char>>) -> bool {
    &&& texts.len() == syms.len()
    &&& forall|i: int| 0 <= i < syms.len() ==> #[trigger] spec_rep(syms[i], None, texts[i])
}

/// The texts that the symbols of an alternative give for themselves.
fn node_reps<T: GrammarTrait>(to: &Vec<T>) -> (r: Vec<String>)
    ensures
        spec_reps(to@, Seq::new(r@.len(), |i: int| r@[i]@)),
{
    let mut out: Vec<String> = Vec::new();
    let mut i: usize = 0;
    while i < to.len()
        invariant
            i <= to@.len(),
            out@.len() == i,
            forall|j: int| 0 <= j < i ==> spec_rep(to@[j], None, #[trigger] out@[j]@),
        decreases to@.len() - i,
    {
        let rep = to[i].to_node_rep(None);
        assert(spec_rep(to@[i as int], None, rep@));
        out.push(rep);
        i = i + 1;
    }
    out
}

/// Whether `text` is an identifier of the item `s`, made of texts that its
/// symbols give for themselves.
pub open spec fn spec_is_state_id<T: GrammarTrait>(text: Seq<char>, s: StateModel<T>) -> bool {
    exists|from: Seq<char>, to: Seq<Seq<char>>|
        spec_rep(s.from, None, from) && spec_reps(s.to, to) && text == #[trigger] spec_state_id(
            from,
            to,
            s.origin,
            s.end,
            s.idx,
        )
}

/// Whether `text` is the item `s` as a dotted rule, made of texts that its
/// symbols give for themselves.
pub open spec fn spec_is_item_label<T: GrammarTrait>(text: Seq<char>, s: StateModel<T>) -> bool {
    exists|from: Seq<char>, to: Seq<Seq<char>>|
        spec_rep(s.from, None, from) && spec_reps(s.to, to) && text == #[trigger] spec_state_repr(
            from,
            to,
            s.origin,
            s.end,
            s.idx,
        )
}

/// The identifier of an item, made of the texts that its symbols give
/// for themselves.
pub fn earley_state_id<T: GrammarTrait>(state: &EarleyState<T>) -> (r: String)
    ensures
        spec_is_state_id(r@, state@),
{
    let from = state.from.to_node_rep(None);
    let to = node_reps(&state.to);
    let r = state_id_text(from.as_str(), &to, state.origin, state.end, state.idx);
    proof {
        let parts = Seq::new(to@.len(), |i: int| to@[i]@);
        assert(spec_rep(state@.from, None, from@));
        assert(spec_reps(state@.to, parts));
        assert(r@ == spec_state_id(from@, parts, state@.origin, state@.end, state@.idx));
    }
    r
}

/// An item as a dotted rule, made of the texts that its symbols give for
/// themselves.
pub fn earley_state_repr<T: GrammarTrait>(state: &EarleyState<T>) -> (r: String)
    requires
        state@.idx <= state@.to.len(),
    ensures
        spec_is_item_label(r@, state@),
{
    let from = state.from.to_node_rep(None);
    let to = node_reps(&state.to);
    let r = state_repr_text(from.as_str(), &to, state.origin, state.end, state.idx);
    proof {
        let parts = Seq::new(to@.len(), |i: int| to@[i]@);
        assert(spec_rep(state@.from, None, from@));
        assert(spec_reps(state@.to, parts));
        assert(r@ == spec_state_repr(from@, parts, state@.origin, state@.end, state@.idx));
    }
    r
}

/// A symbol that was read as text: the text of the symbol, `" @ "`, and
/// the position at which it ends.
pub open spec fn spec_scanned(rep: Seq<char>, idx: nat) -> Seq<char> {
    rep + seq![' ', '@', ' '] + spec_decimal(idx)
}

/// A symbol that was read, made of its text.
pub fn scanned_text(rep: &str, idx: usize) -> (r: String)
    ensures
        r@ == spec_scanned(rep@, idx as nat),
{
    let mut out: Vec<char> = Vec::new();
    push_text(&mut out, rep);
    out.push(' ');
    out.push('@');
    out.push(' ');
    push_decimal(&mut out, idx as u128);
    assert(out@ =~= spec_scanned(rep@, idx as nat));
    from_chars(&out)
}

/// A packed node as text: the left child, and behind `" || "` the right
/// child where there is one.
pub open spec fn spec_node_text(left: Seq<char>, right: Option<Seq<char>>) -> Seq<char> {
    match right {
        Some(r) => left + seq![' ', '|', '|', ' '] + r,
        None => left,
    }
}

/// A packed node, made of the texts of its children.
pub fn node_text(left: &str, right: Option<&str>) -> (r: String)
    ensures
        r@ == spec_node_text(
            left@,
            match right {
                Some(t) => Some(t@),
                None => None,
            },
        ),
{
    let mut out: Vec<char> = Vec::new();
    push_text(&mut out, left);
    match right {
        Some(t) => {
            out.push(' ');
            out.push('|');
            out.push('|');
            out.push(' ');
            push_text(&mut out, t);
            assert(out@ =~= left@ + seq![' ', '|', '|', ' '] + t@);
        },
        None => {
            assert(out@ =~= left@);
        },
    }
    from_chars(&out)
}

/// The texts `parts` with `" -- "` between them.
pub open spec fn spec_joined(parts: Seq<Seq<char>>) -> Seq<char>
    decreases parts.len(),
{
    if parts.len() == 0 {
        Seq::empty()
    } else if parts.len() == 1 {
        parts[0]
    } else {
        spec_joined(parts.drop_last()) + seq![' ', '-', '-', ' '] + parts.last()
    }
}

/// The line of an item in a listing: its number, a colon and a tab, the
/// item, and, where it has packed nodes, a tab, `" packed_nodes: "` and
/// the nodes with `" -- "` between them.
pub open spec fn spec_line(index: nat, repr: Seq<char>, nodes: Seq<Seq<char>>) -> Seq<char> {
    spec_decimal(index) + seq![':', '\t'] + repr + if nodes.len() > 0 {
        "\t packed_nodes: "@ + spec_joined(nodes)
    } else {
        Seq::empty()
    }
}

/// The line of an item in a listing, made of the texts of the item and of
/// its packed nodes.
pub fn line_text(index: usize, repr: &str, nodes: &Vec<String>) -> (r: String)
    ensures
        r@ == spec_line(index as nat, repr@, Seq::new(nodes@.len(), |i: int| nodes@[i]@)),
{
    let ghost parts = Seq::new(nodes@.len(), |i: int| nodes@[i]@);
    let mut out: Vec<char> = Vec::new();
    push_decimal(&mut out, index as u128);
    out.push(':');
    out.push('\t');
    push_text(&mut out, repr);
    if nodes.len() > 0 {
        push_text(&mut out, "\t packed_nodes: ");
        let ghost head = out@;
        push_text(&mut out, nodes[0].as_str());
        assert(parts.take(1) =~= seq![parts[0]]);
        assert(out@ =~= head + spec_joined(parts.take(1)));
        let mut i: usize = 1;
        while i < nodes.len()
            invariant
                1 <= i <= nodes@.len(),
                parts == Seq::new(nodes@.len(), |i: int| nodes@[i]@),
                out@ == head + spec_joined(parts.take(i as int)),
            decreases nodes@.len() - i,
        {
            out.push(' ');
            out.push('-');
            out.push('-');
            out.push(' ');
            push_text(&mut out, nodes[i].as_str());
            proof {
                assert(parts.take(i + 1).drop_last() =~= parts.take(i as int));
                assert(parts.take(i + 1).last() == nodes@[i as int]@);
                assert(out@ =~= head + spec_joined(parts.take(i + 1)));
            }
            i = i + 1;
        }
        assert(parts.take(i as int) =~= parts);
        assert(out@ =~= spec_line(index as nat, repr@, parts));
    } else {
        assert(out@ =~= spec_line(index as nat, repr@, parts));
    }
    from_chars(&out)
}

/// Whether the progress of an item lies within its alternative.
pub open spec fn spec_state_shown<T: GrammarTrait>(state: EarleyState<T>) -> bool {
    state@.idx <= state@.to.len()
}

/// Whether the items that a derivation and a packed node hold can be
/// shown.
pub open spec fn spec_derivation_shown<T: GrammarTrait>(d: Derivation<T>) -> bool {
    match d {
        Derivation::CompletedFrom { state } => spec_state_shown(state),
        Derivation::ScannedFrom { symbol, idx } => true,
    }
}

/// Whether every item of a set, those in its packed nodes too, can be
/// shown.
pub open spec fn spec_states_shown<T: GrammarTrait>(
    states: Seq<(EarleyState<T>, Children<T>)>,
) -> bool {
    forall|i: int|
        0 <= i < states.len() ==> spec_state_shown((#[trigger] states[i]).0) && forall|y: int|
            0 <= y < states[i].1@.len() ==> spec_derivation_shown(
                (#[trigger] states[i].1@[y]).left_child,
            ) && (states[i].1@[y].right_child matches Some(d) ==> spec_derivation_shown(d))
}

/// A text as `Debug` shows it: in double quotes, with what needs it
/// escaped.
pub uninterp spec fn spec_quoted(text: Seq<char>) -> Seq<char>;

/// A text as `Debug` shows it. Calls `format!` with `{:?}`, that is
/// `Debug` for `str`, which puts the text in double quotes and escapes what
/// needs it. What comes back depends on the text alone; it is named here,
/// and nothing more is claimed of it.
#[verifier::external_body]
fn quoted_text(text: &str) -> (r: String)
    ensures
        r@ == spec_quoted(text@),
{
    format!("{:?}", text)
}

/// Whether `text` is a text that the symbol gives for itself, `" @ "` and
/// the position `idx`.
pub open spec fn spec_is_scanned<T: GrammarTrait>(text: Seq<char>, symbol: T, idx: nat) -> bool {
    exists|rep: Seq<char>| #[trigger] spec_rep(symbol, None, rep) && text == spec_scanned(rep, idx)
}

/// Whether `text` is the left child `d` of a packed node as text: an item
/// as a dotted rule, a symbol with the position at which it ends.
pub open spec fn spec_is_left<T: GrammarTrait>(text: Seq<char>, d: DerivationModel<T>) -> bool {
    match d {
        DerivationModel::CompletedFrom { state } => spec_is_item_label(text, state),
        DerivationModel::ScannedFrom { symbol, idx } => spec_is_scanned(text, symbol, idx),
    }
}

/// Whether `text` is `" & "`, in quotes a text that the symbol gives for
/// itself, `" @ "` and the position `idx`.
pub open spec fn spec_is_quoted<T: GrammarTrait>(text: Seq<char>, symbol: T, idx: nat) -> bool {
    exists|rep: Seq<char>| #[trigger]
        spec_rep(symbol, None, rep) && text == seq![' ', '&', ' '] + spec_scanned(
            spec_quoted(rep),
            idx,
        )
}

/// Whether `text` is the right child `d` of a packed node as text: an item
/// as a dotted rule, a symbol behind `" & "`, its text in quotes, with the
/// position at which it ends.
pub open spec fn spec_is_right<T: GrammarTrait>(text: Seq<char>, d: DerivationModel<T>) -> bool {
    match d {
        DerivationModel::CompletedFrom { state } => spec_is_item_label(text, state),
        DerivationModel::ScannedFrom { symbol, idx } => spec_is_quoted(text, symbol, idx),
    }
}

/// The left child of a packed node as text: an item as a dotted rule, a
/// symbol with the position at which it ends.
fn left_text<T: GrammarTrait>(d: &Derivation<T>) -> (r: String)
    requires
        spec_derivation_shown(*d),
    ensures
        spec_is_left(r@, d@),
{
    match d {
        Derivation::CompletedFrom { state } => earley_state_repr(state),
        Derivation::ScannedFrom { symbol, idx } => {
            let rep = symbol.to_node_rep(None);
            let r = scanned_text(rep.as_str(), *idx);
            assert(spec_rep(*symbol, None, rep@));
            assert(spec_is_scanned(r@, *symbol, *idx as nat));
            r
        },
    }
}

/// The right child of a packed node as text: an item as a dotted rule, a
/// symbol behind `" & "`, its text in quotes, with the position at which
/// it ends.
fn right_text<T: GrammarTrait>(d: &Derivation<T>) -> (r: String)
    requires
        spec_derivation_shown(*d),
    ensures
        spec_is_right(r@, d@),
{
    match d {
        Derivation::CompletedFrom { state } => earley_state_repr(state),
        Derivation::ScannedFrom { symbol, idx } => {
            let rep = symbol.to_node_rep(None);
            let quoted = quoted_text(rep.as_str());
            let shown = scanned_text(quoted.as_str(), *idx);
            let mut out: Vec<char> = Vec::new();
            out.push(' ');
            out.push('&');
            out.push(' ');
            push_text(&mut out, shown.as_str());
            proof {
                assert(spec_rep(*symbol, None, rep@));
                assert(out@ =~= seq![' ', '&', ' '] + spec_scanned(
                    spec_quoted(rep@),
                    *idx as nat,
                ));
                assert(spec_is_quoted(out@, *symbol, *idx as nat));
            }
            from_chars(&out)
        },
    }
}

/// Whether `text` is the packed node `node` as text: its left child, and
/// behind `" || "` its right child where it has one.
pub open spec fn spec_is_node_text<T: GrammarTrait>(text: Seq<char>, node: PackedModel<T>) -> bool {
    exists|left: Seq<char>, right: Option<Seq<char>>|
        {
            &&& spec_is_left(left, node.left_child)
            &&& match node.right_child {
                Some(d) => match right {
                    Some(t) => spec_is_right(t, d),
                    None => false,
                },
                None => right is None,
            }
            &&& text == #[trigger] spec_node_text(left, right)
        }
}

/// Whether `texts` are the packed nodes `nodes` as texts, in order.
pub open spec fn spec_are_node_texts<T: GrammarTrait>(
    texts: Seq<Seq<char>>,
    nodes: Seq<PackedModel<T>>,
) -> bool {
    &&& texts.len() == nodes.len()
    &&& forall|y: int| 0 <= y < nodes.len() ==> spec_is_node_text(#[trigger] texts[y], nodes[y])
}

/// Whether `text` is the line number `index` of a listing, for an item
/// and its packed nodes: the number, the item as a dotted rule, and the
/// packed nodes as texts.
pub open spec fn spec_is_line<T: GrammarTrait>(
    text: Seq<char>,
    index: nat,
    entry: EntryModel<T>,
) -> bool {
    exists|repr: Seq<char>, nodes: Seq<Seq<char>>|
        spec_is_item_label(repr, entry.0) && spec_are_node_texts(nodes, entry.1) && text
            == #[trigger] spec_line(index, repr, nodes)
}

/// The lines of a listing of a set of items, one for each item, in order:
/// each with the number of the item, the item as a dotted rule, and its
/// packed nodes.
pub fn print_earley_states<T: GrammarTrait>(
    states: &States<T>,
    _grammar: &Grammar<T>,
    end: usize,
) -> (r: Vec<String>)
    requires
        spec_states_shown(states@),
    ensures
        r@.len() == states@.len(),
        forall|i: int|
            0 <= i < r@.len() ==> spec_is_line(
                (#[trigger] r@[i])@,
                i as nat,
                states_view(states@)[i],
            ),
{
    let mut lines: Vec<String> = Vec::new();
    let mut i: usize = 0;
    while i < states.len()
        invariant
            i <= states@.len(),
            lines@.len() == i,
            spec_states_shown(states@),
            forall|j: int|
                0 <= j < i ==> spec_is_line(
                    (#[trigger] lines@[j])@,
                    j as nat,
                    states_view(states@)[j],
                ),
        decreases states@.len() - i,
    {
        let repr = earley_state_repr(&states[i].0);
        let packed_nodes = &states[i].1;
        let ghost entry = states_view(states@)[i as int];
        assert(entry.0 == states@[i as int].0@);
        assert(entry.1 == packed_view(packed_nodes@));
        let mut texts: Vec<String> = Vec::new();
        let mut y: usize = 0;
        while y < packed_nodes.len()
            invariant
                y <= packed_nodes@.len(),
                texts@.len() == y,
                i < states@.len(),
                packed_nodes == &states@[i as int].1,
                spec_states_shown(states@),
                forall|j: int|
                    0 <= j < y ==> spec_is_node_text((#[trigger] texts@[j])@, packed_nodes@[j]@),
            decreases packed_nodes@.len() - y,
        {
            let node: &PackedNode<T> = &packed_nodes[y];
            let left = left_text(&node.left_child);
            let text = match &node.right_child {
                Some(d) => {
                    let right = right_text(d);
                    let text = node_text(left.as_str(), Some(right.as_str()));
                    assert(text@ == spec_node_text(left@, Some(right@)));
                    assert(spec_is_node_text(text@, node@));
                    text
                },
                None => {
                    let text = node_text(left.as_str(), None);
                    assert(text@ == spec_node_text(left@, None));
                    assert(spec_is_node_text(text@, node@));
                    text
                },
            };
            texts.push(text);
            y = y + 1;
        }
        let line = line_text(i, repr.as_str(), &texts);
        proof {
            let nodes = Seq::new(texts@.len(), |k: int| texts@[k]@);
            assert(spec_are_node_texts(nodes, entry.1));
            assert(line@ == spec_line(i as nat, repr@, nodes));
            assert(spec_is_line(line@, i as nat, entry));
        }
        let ghost before = lines@;
        lines.push(line);
        assert forall|j: int| 0 <= j < i + 1 implies spec_is_line(
            (#[trigger] lines@[j])@,
            j as nat,
            states_view(states@)[j],
        ) by {
            if j < i {
                assert(lines@[j] == before[j]);
            }
        }
        i = i + 1;
    }
    lines
}

/// The symbol of the item from which the first of the edges from `from`
/// on that lead to `n` comes; none where no edge leads to `n` or that edge
/// comes from a symbol that was read.
pub open spec fn spec_parent<T>(
    edges: Seq<EdgeModel<T>>,
    n: DerivationModel<T>,
    from: int,
) -> Option<
    T,
>
    decreases edges.len() - from,
{
    if from < 0 || from >= edges.len() {
        None
    } else if edges[from].1 == n {
        match edges[from].0 {
            DerivationModel::CompletedFrom { state } => Some(state.from),
            DerivationModel::ScannedFrom { symbol, idx } => None,
        }
    } else {
        spec_parent(edges, n, from + 1)
    }
}

/// Whether `text` is `N` and an identifier of the item `s`.
pub open spec fn spec_is_item_id<T: GrammarTrait>(text: Seq<char>, s: StateModel<T>) -> bool {
    exists|id: Seq<char>| #[trigger] spec_is_state_id(id, s) && text == seq!['N'] + id
}

/// Whether `text` is `N`, a text that the symbol gives for itself, `_` and
/// the position `idx`.
pub open spec fn spec_is_symbol_id<T: GrammarTrait>(text: Seq<char>, symbol: T, idx: nat) -> bool {
    exists|rep: Seq<char>| #[trigger]
        spec_rep(symbol, None, rep) && text == seq!['N'] + rep + seq!['_'] + spec_decimal(idx)
}

/// Whether `text` is an identifier of the node of the derivation `d`: `N`
/// and an identifier of the item, or `N`, a text that the symbol gives for
/// itself, `_` and the position at which it ends.
pub open spec fn spec_is_node_id<T: GrammarTrait>(text: Seq<char>, d: DerivationModel<T>) -> bool {
    match d {
        DerivationModel::CompletedFrom { state } => spec_is_item_id(text, state),
        DerivationModel::ScannedFrom { symbol, idx } => spec_is_symbol_id(text, symbol, idx),
    }
}

/// A symbol that was read as a label: the text of the symbol, a comma, and
/// the position at which it ends.
pub open spec fn spec_labelled(rep: Seq<char>, idx: nat) -> Seq<char> {
    rep + seq![',', ' '] + spec_decimal(idx)
}

/// Whether `text` is a text that the symbol gives for itself under the
/// symbol `parent`, a comma and the position `idx`.
pub open spec fn spec_is_symbol_label<T: GrammarTrait>(
    text: Seq<char>,
    symbol: T,
    parent: Option<T>,
    idx: nat,
) -> bool {
    exists|rep: Seq<char>| #[trigger]
        spec_rep(symbol, parent, rep) && text == spec_labelled(rep, idx)
}

/// Whether `text` is a label of the node of the derivation `d` under the
/// symbol `parent`: the item as a dotted rule, or a text that the symbol
/// gives for itself under `parent`, a comma and the position at which it
/// ends.
pub open spec fn spec_is_node_label<T: GrammarTrait>(
    text: Seq<char>,
    d: DerivationModel<T>,
    parent: Option<T>,
) -> bool {
    match d {
        DerivationModel::CompletedFrom { state } => spec_is_item_label(text, state),
        DerivationModel::ScannedFrom { symbol, idx } => spec_is_symbol_label(
            text,
            symbol,
            parent,
            idx,
        ),
    }
}

/// The views of derivations, in order.
pub open spec fn derivations_view<T: GrammarTrait>(v: Seq<Derivation<T>>) -> Seq<
    DerivationModel<T>,
> {
    Seq::new(v.len(), |i: int| v[i]@)
}

/// The nodes of the first `upto` of the edges `edges`, in the order in
/// which the edges bring them: of each edge the source, then the target,
/// each where no edge before brought it.
pub open spec fn spec_nodes<T>(edges: Seq<EdgeModel<T>>, upto: nat) -> Seq<DerivationModel<T>>
    decreases upto,
{
    if upto == 0 || upto > edges.len() {
        Seq::empty()
    } else {
        let before = spec_nodes(edges, (upto - 1) as nat);
        let edge = edges[upto - 1];
        let with_source = if before.contains(edge.0) {
            before
        } else {
            before.push(edge.0)
        };
        if before.contains(edge.1) {
            with_source
        } else {
            with_source.push(edge.1)
        }
    }
}

impl<T: GrammarTrait> Derivation<T> {
    /// Whether two derivations are the same.
    pub fn same_derivation(&self, other: &Self) -> (r: bool)
        ensures
            r == (self@ == other@),
    {
        match self {
            Derivation::ScannedFrom { symbol, idx } => match other {
                Derivation::ScannedFrom { symbol: other_symbol, idx: other_idx } => symbol.same(
                    other_symbol,
                ) && *idx == *other_idx,
                Derivation::CompletedFrom { state } => false,
            },
            Derivation::CompletedFrom { state } => match other {
                Derivation::ScannedFrom { symbol, idx } => false,
                Derivation::CompletedFrom { state: other_state } => state.same_state(other_state),
            },
        }
    }

    /// The identifier of the node of a derivation in a drawing: `N` and the
    /// identifier of the item, or `N`, the text of the symbol, `_` and the
    /// position at which it ends.
    pub fn node_id(&self) -> (r: String)
        ensures
            spec_is_node_id(r@, self@),
    {
        let mut out: Vec<char> = Vec::new();
        out.push('N');
        match self {
            Derivation::CompletedFrom { state } => {
                let id = earley_state_id(state);
                push_text(&mut out, id.as_str());
                proof {
                    assert(out@ =~= seq!['N'] + id@);
                    assert(spec_is_item_id(out@, state@));
                }
            },
            Derivation::ScannedFrom { symbol, idx } => {
                let rep = symbol.to_node_rep(None);
                push_text(&mut out, rep.as_str());
                out.push('_');
                push_decimal(&mut out, *idx as u128);
                proof {
                    assert(spec_rep(*symbol, None, rep@));
                    assert(out@ =~= seq!['N'] + rep@ + seq!['_'] + spec_decimal(*idx as nat));
                    assert(spec_is_symbol_id(out@, *symbol, *idx as nat));
                }
            },
        }
        from_chars(&out)
    }
}

fn holds_derivation<T: GrammarTrait>(v: &Vec<Derivation<T>>, upto: usize, d: &Derivation<T>) -> (r:
    bool)
    requires
        upto <= v@.len(),
    ensures
        r == derivations_view(v@).take(upto as int).contains(d@),
{
    let ghost models = derivations_view(v@).take(upto as int);
    let mut i: usize = 0;
    while i < upto
        invariant
            i <= upto <= v@.len(),
            models == derivations_view(v@).take(upto as int),
            forall|j: int| 0 <= j < i ==> models[j] != d@,
        decreases upto - i,
    {
        if v[i].same_derivation(d) {
            assert(models[i as int] == d@);
            return true;
        }
        i = i + 1;
    }
    false
}

impl<T: GrammarTrait> EarleyTree<T> {
    /// The nodes of the tree, in the order in which the edges bring them.
    pub fn nodes(&self) -> (r: Vec<Derivation<T>>)
        ensures
            derivations_view(r@) == spec_nodes(edges_view(self.edges@), self.edges@.len() as nat),
    {
        let ghost edges = edges_view(self.edges@);
        let mut nodes: Vec<Derivation<T>> = Vec::new();
        let mut i: usize = 0;
        assert(derivations_view(nodes@) =~= spec_nodes(edges, 0));
        while i < self.edges.len()
            invariant
                i <= self.edges@.len(),
                edges == edges_view(self.edges@),
                derivations_view(nodes@) == spec_nodes(edges, i as nat),
            decreases self.edges@.len() - i,
        {
            let ghost before = derivations_view(nodes@);
            let had = nodes.len();
            let source = &self.edges[i].0;
            let target = &self.edges[i].1;
            assert(edges[i as int] == (source@, target@));
            assert(before.take(had as int) =~= before);
            if !holds_derivation(&nodes, had, source) {
                let copy = source.clone();
                assert(derivations_view(nodes@.push(copy)) =~= before.push(source@));
                nodes.push(copy);
            }
            let ghost middle = derivations_view(nodes@);
            assert(middle.take(had as int) =~= before);
            if !holds_derivation(&nodes, had, target) {
                let copy = target.clone();
                assert(derivations_view(nodes@.push(copy)) =~= middle.push(target@));
                nodes.push(copy);
            }
            i = i + 1;
        }
        nodes
    }

    /// The symbol over the derivation `n`: the symbol of the item from
    /// which the first edge to `n` comes.
    pub fn parent_symbol(&self, n: &Derivation<T>) -> (r: Option<T>)
        ensures
            r == spec_parent(edges_view(self.edges@), n@, 0),
    {
        let ghost edges = edges_view(self.edges@);
        let mut i: usize = 0;
        while i < self.edges.len()
            invariant
                i <= self.edges@.len(),
                edges == edges_view(self.edges@),
                spec_parent(edges, n@, 0) == spec_parent(edges, n@, i as int),
            decreases self.edges@.len() - i,
        {
            assert(edges[i as int] == (self.edges@[i as int].0@, self.edges@[i as int].1@));
            if self.edges[i].1.same_derivation(n) {
                return match &self.edges[i].0 {
                    Derivation::CompletedFrom { state } => Some(state.from),
                    Derivation::ScannedFrom { symbol, idx } => None,
                };
            }
            i = i + 1;
        }
        None
    }

    /// The label of the node of a derivation in a drawing: the item as a
    /// dotted rule, or the text that a symbol gives for itself under the
    /// symbol over it, a comma and the position at which it ends. There is
    /// none for an item whose progress lies beyond its alternative.
    pub fn node_label(&self, n: &Derivation<T>) -> (r: Option<String>)
        ensures
            match r {
                Some(text) => spec_derivation_shown(*n) && spec_is_node_label(
                    text@,
                    n@,
                    spec_parent(edges_view(self.edges@), n@, 0),
                ),
                None => !spec_derivation_shown(*n),
            },
    {
        match n {
            Derivation::CompletedFrom { state } => {
                if state.idx <= state.to.len() {
                    Some(earley_state_repr(state))
                } else {
                    None
                }
            },
            Derivation::ScannedFrom { symbol, idx } => {
                let parent_sym = self.parent_symbol(n);
                let rep = symbol.to_node_rep(parent_sym);
                let mut out: Vec<char> = Vec::new();
                push_text(&mut out, rep.as_str());
                out.push(',');
                out.push(' ');
                push_decimal(&mut out, *idx as u128);
                proof {
                    assert(spec_rep(*symbol, parent_sym, rep@));
                    assert(out@ =~= spec_labelled(rep@, *idx as nat));
                    assert(spec_is_symbol_label(out@, *symbol, parent_sym, *idx as nat));
                }
                Some(from_chars(&out))
            },
        }
    }
}

} // verus!
