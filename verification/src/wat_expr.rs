//! The text of expressions: segments, blocks and whole expressions.

use crate::text::{
    from_chars, push_chars, push_decimal, push_padded, push_signed_decimal, push_text,
    spec_decimal, spec_padded, spec_signed_decimal, spec_trim_end, to_chars, trim_end,
};
use crate::wasm_model::{
    get_edge_case, lemma_seg_view_control, lemma_seg_view_instr, lemma_views_index, segs_view,
    spec_edge_case, ElemModeModel, EmitterState, ExprSeg, FileModel, InstrModel, SegModel,
    SpecialInstr, WasmElemMode, WasmExpr, WasmFile,
};
use vstd::prelude::*;

verus! {

/// The texts of floating-point numbers, by their bits: those of 32 bits
/// and those of 64 bits.
pub struct FloatTexts {
    pub singles: Vec<(u32, String)>,
    pub doubles: Vec<(u64, String)>,
}

/// The texts of floating-point numbers as a value of sequences.
pub struct FloatModel {
    pub singles: Seq<(u32, Seq<char>)>,
    pub doubles: Seq<(u64, Seq<char>)>,
}

impl View for FloatTexts {
    type V = FloatModel;

    open spec fn view(&self) -> FloatModel {
        FloatModel {
            singles: Seq::new(
                self.singles@.len(),
                |i: int| (self.singles@[i].0, self.singles@[i].1@),
            ),
            doubles: Seq::new(
                self.doubles@.len(),
                |i: int| (self.doubles@[i].0, self.doubles@[i].1@),
            ),
        }
    }
}

/// The text that the first entry from `from` on gives for `bits`; empty
/// where there is none.
pub open spec fn spec_single(entries: Seq<(u32, Seq<char>)>, bits: u32, from: int) -> Seq<char>
    decreases entries.len() - from,
{
    if from < 0 || from >= entries.len() {
        Seq::empty()
    } else if entries[from].0 == bits {
        entries[from].1
    } else {
        spec_single(entries, bits, from + 1)
    }
}

/// The text that the first entry from `from` on gives for `bits`; empty
/// where there is none.
pub open spec fn spec_double(entries: Seq<(u64, Seq<char>)>, bits: u64, from: int) -> Seq<char>
    decreases entries.len() - from,
{
    if from < 0 || from >= entries.len() {
        Seq::empty()
    } else if entries[from].0 == bits {
        entries[from].1
    } else {
        spec_double(entries, bits, from + 1)
    }
}

impl FloatTexts {
    /// Appends the text of the number of 32 bits with the given bits.
    pub fn push_single(&self, out: &mut Vec<char>, bits: u32)
        ensures
            final(out)@ == old(out)@ + spec_single(self@.singles, bits, 0),
    {
        let mut i: usize = 0;
        while i < self.singles.len()
            invariant
                i <= self.singles@.len(),
                out@ == old(out)@,
                spec_single(self@.singles, bits, 0) == spec_single(self@.singles, bits, i as int),
            decreases self.singles@.len() - i,
        {
            if self.singles[i].0 == bits {
                push_text(out, self.singles[i].1.as_str());
                return ;
            }
            i = i + 1;
        }
        assert(out@ =~= old(out)@ + Seq::<char>::empty());
    }

    /// Appends the text of the number of 64 bits with the given bits.
    pub fn push_double(&self, out: &mut Vec<char>, bits: u64)
        ensures
            final(out)@ == old(out)@ + spec_double(self@.doubles, bits, 0),
    {
        let mut i: usize = 0;
        while i < self.doubles.len()
            invariant
                i <= self.doubles@.len(),
                out@ == old(out)@,
                spec_double(self@.doubles, bits, 0) == spec_double(self@.doubles, bits, i as int),
            decreases self.doubles@.len() - i,
        {
            if self.doubles[i].0 == bits {
                push_text(out, self.doubles[i].1.as_str());
                return ;
            }
            i = i + 1;
        }
        assert(out@ =~= old(out)@ + Seq::<char>::empty());
    }
}

/// The number of the label of a block within a block of the label
/// `label`.
pub open spec fn spec_next_label(label: nat) -> nat {
    if label < usize::MAX {
        label + 1
    } else {
        label
    }
}

/// A name with the label of a block: the name, `" $label"` and the number.
pub open spec fn spec_labelled(name: Seq<char>, label: nat) -> Seq<char> {
    name + " $label"@ + spec_decimal(label)
}

/// How many of the segments behind an opcode a blank follows, in a flat
/// run.
pub open spec fn spec_spaced(info: InstrModel) -> nat {
    match spec_edge_case(info.instr) {
        SpecialInstr::CallIndirect => 2,
        SpecialInstr::BeginBlock => 1,
        _ => if info.constants.len() != 0 {
            1
        } else {
            0
        },
    }
}

/// The text of one segment, where blocks are labelled from `label` on: the
/// mnemonic of an opcode, the digits of an integer, the text that the
/// table gives for a float, `$var`, `$global` or `$func` and the index,
/// nothing for a table of branches, each segment of an instruction with a
/// blank behind it and then a line feed, and a block with its body
/// indented by two blanks.
pub open spec fn spec_seg_text(s: SegModel, label: nat, floats: FloatModel) -> Seq<char>
    decreases s, 0nat,
{
    match s {
        SegModel::Operation(info) => info.name,
        SegModel::Int(i) => spec_signed_decimal(i as int),
        SegModel::Float32(bits) => spec_single(floats.singles, bits, 0),
        SegModel::Float64(bits) => spec_double(floats.doubles, bits, 0),
        SegModel::Global(idx) => "$global"@ + spec_decimal(idx as nat),
        SegModel::Local(idx) => "$var"@ + spec_decimal(idx as nat),
        SegModel::Func(idx) => "$func"@ + spec_decimal(idx as nat),
        SegModel::BrTable(depths, default) => Seq::empty(),
        SegModel::ControlFlow(opener, body, end) => spec_labelled(opener.name, label) + "\n  "@
            + spec_padded(spec_block(body, 0, 0, spec_next_label(label), floats).1, "  "@) + "\n"@
            + spec_labelled(end.name, label) + "\n"@,
        SegModel::Instr(v) => spec_instr_text(v, v.len(), label, floats) + "\n"@,
    }
}

/// The texts of the first `upto` segments of an instruction, each with a
/// blank behind it.
pub open spec fn spec_instr_text(
    v: Seq<SegModel>,
    upto: nat,
    label: nat,
    floats: FloatModel,
) -> Seq<
    char,
>
    decreases v, upto,
{
    if upto == 0 || upto > v.len() {
        Seq::empty()
    } else {
        spec_instr_text(v, (upto - 1) as nat, label, floats) + spec_seg_text(
            v[upto - 1],
            label,
            floats,
        ) + " "@
    }
}

/// Whether a segment is a bare `end`.
pub open spec fn spec_is_end(s: SegModel) -> bool {
    s matches SegModel::Operation(info) && spec_edge_case(info.instr) == SpecialInstr::EndBlock
}

/// How many segments a blank follows, from the segment `s` on, where it
/// was `until` before: what a bare opcode asks for, else what it was.
pub open spec fn spec_owed(s: SegModel, until: nat) -> nat {
    match s {
        SegModel::Operation(info) => spec_spaced(info),
        _ => until,
    }
}

/// What is left of `owed` behind one segment.
pub open spec fn spec_less(owed: nat) -> nat {
    if owed > 0 {
        (owed - 1) as nat
    } else {
        0
    }
}

/// The text of one segment of a block, with the blank behind it where one
/// is owed. A bare opcode is its mnemonic. A block is shown with its body
/// indented by two blanks and without the white space at the end of the
/// body.
pub open spec fn spec_step_text(s: SegModel, until: nat, label: nat, floats: FloatModel) -> Seq<
    char,
>
    decreases s, 1nat,
{
    (match s {
        SegModel::Operation(info) => info.name,
        SegModel::ControlFlow(opener, body, end) => spec_labelled(opener.name, label) + "\n  "@
            + spec_trim_end(
            spec_padded(spec_block(body, 0, 0, spec_next_label(label), floats).1, "  "@),
        ) + "\n"@ + spec_labelled(end.name, label) + "\n"@,
        _ => spec_seg_text(s, label, floats),
    }) + (if spec_owed(s, until) > 0 {
        " "@
    } else {
        Seq::empty()
    })
}

/// The text of the segments from `pos` up to the first bare `end`, and
/// the place of that `end`; the place of the last segment where there is
/// no such `end`. A blank follows the next `until` segments, and a bare
/// opcode says anew how many it follows: itself, where it has immediates or
/// opens a block, and for `call_indirect` the segment behind it too.
pub open spec fn spec_block(
    segs: Seq<SegModel>,
    pos: int,
    until: nat,
    label: nat,
    floats: FloatModel,
) -> (int, Seq<char>)
    decreases segs, segs.len() - pos,
{
    if pos < 0 || pos >= segs.len() {
        (
            if segs.len() > 0 {
                segs.len() - 1
            } else {
                0
            },
            Seq::empty(),
        )
    } else if spec_is_end(segs[pos]) {
        (pos, Seq::empty())
    } else {
        let rest = spec_block(segs, pos + 1, spec_less(spec_owed(segs[pos], until)), label, floats);
        (rest.0, spec_step_text(segs[pos], until, label, floats) + rest.1)
    }
}

/// The block of segments from `pos` on ends at `pos` or behind it.
pub proof fn lemma_block_ends(
    segs: Seq<SegModel>,
    pos: int,
    until: nat,
    label: nat,
    floats: FloatModel,
)
    requires
        0 <= pos < segs.len(),
    ensures
        pos <= spec_block(segs, pos, until, label, floats).0 < segs.len(),
    decreases segs.len() - pos,
{
    let next = spec_less(spec_owed(segs[pos], until));
    if pos + 1 < segs.len() {
        lemma_block_ends(segs, pos + 1, next, label, floats);
    } else {
        assert(spec_block(segs, pos + 1, next, label, floats).0 == segs.len() - 1);
    }
}

/// The texts of the blocks of an expression from `pos` on, each in
/// brackets, without the white space at its end, and with a blank behind
/// it. The last segment of an expression, its `end`, starts no block.
pub open spec fn spec_blocks(segs: Seq<SegModel>, pos: int, floats: FloatModel) -> Seq<char>
    decreases
            (if pos < segs.len() {
                segs.len() - pos
            } else {
                0
            }),
{
    if pos < 0 || pos >= segs.len() - 1 {
        Seq::empty()
    } else {
        let block = spec_block(segs, pos, 0, 0, floats);
        "("@ + spec_trim_end(block.1) + ") "@ + (if block.0 >= pos {
            spec_blocks(segs, block.0 + 1, floats)
        } else {
            Seq::empty()
        })
    }
}

/// The text of an expression: its blocks, each in brackets, with one
/// blank between them.
pub open spec fn spec_expression_text(segs: Seq<SegModel>, floats: FloatModel) -> Seq<char> {
    let blocks = spec_blocks(segs, 0, floats);
    if blocks.len() > 0 {
        blocks.drop_last()
    } else {
        blocks
    }
}

fn next_label(label: usize) -> (r: usize)
    ensures
        r == spec_next_label(label as nat),
{
    if label < usize::MAX {
        label + 1
    } else {
        label
    }
}

fn push_labelled(out: &mut Vec<char>, name: &str, label: usize)
    ensures
        final(out)@ == old(out)@ + spec_labelled(name@, label as nat),
{
    push_text(out, name);
    push_text(out, " $label");
    push_decimal(out, label as u128);
    assert(out@ =~= old(out)@ + spec_labelled(name@, label as nat));
}

fn two_blanks() -> (r: Vec<char>)
    ensures
        r@ == "  "@,
{
    to_chars("  ")
}

/// Appends the text of a segment.
pub fn push_seg(out: &mut Vec<char>, seg: &ExprSeg, label: usize, floats: &FloatTexts)
    ensures
        final(out)@ == old(out)@ + spec_seg_text(seg@, label as nat, floats@),
    decreases seg, 0nat,
{
    match seg {
        ExprSeg::Operation(info) => {
            push_text(out, info.name);
        },
        ExprSeg::Int(i) => {
            push_signed_decimal(out, *i);
        },
        ExprSeg::Float32(bits) => {
            floats.push_single(out, *bits);
        },
        ExprSeg::Float64(bits) => {
            floats.push_double(out, *bits);
        },
        ExprSeg::Global(idx) => {
            push_text(out, "$global");
            push_decimal(out, *idx as u128);
            assert(out@ =~= old(out)@ + spec_seg_text(seg@, label as nat, floats@));
        },
        ExprSeg::Local(idx) => {
            push_text(out, "$var");
            push_decimal(out, *idx as u128);
            assert(out@ =~= old(out)@ + spec_seg_text(seg@, label as nat, floats@));
        },
        ExprSeg::Func(idx) => {
            push_text(out, "$func");
            push_decimal(out, *idx as u128);
            assert(out@ =~= old(out)@ + spec_seg_text(seg@, label as nat, floats@));
        },
        ExprSeg::BrTable(_table_const) => {
            assert(out@ =~= old(out)@ + Seq::<char>::empty());
        },
        ExprSeg::ControlFlow(info, expr, end_info) => {
            proof {
                lemma_seg_view_control(*info, *expr, *end_info);
            }
            push_labelled(out, info.name, label);
            push_text(out, "\n  ");
            let inner = block_chars(expr, 0, 0, next_label(label), floats);
            push_padded(out, &inner.1, &two_blanks());
            push_text(out, "\n");
            push_labelled(out, end_info.name, label);
            push_text(out, "\n");
            assert(out@ =~= old(out)@ + spec_seg_text(seg@, label as nat, floats@));
        },
        ExprSeg::Instr(instr_expr) => {
            proof {
                lemma_seg_view_instr(*instr_expr);
            }
            let ghost v = segs_view(instr_expr@);
            let mut k: usize = 0;
            assert(out@ =~= old(out)@ + spec_instr_text(v, 0, label as nat, floats@));
            while k < instr_expr.len()
                invariant
                    k <= instr_expr@.len(),
                    v == segs_view(instr_expr@),
                    decreases_to!(seg => *instr_expr),
                    out@ == old(out)@ + spec_instr_text(v, k as nat, label as nat, floats@),
                decreases instr_expr@.len() - k,
            {
                proof {
                    vstd::std_specs::vec::axiom_vec_index_decreases(*instr_expr, k as int);
                    assert(v[k as int] == instr_expr@[k as int]@);
                }
                push_seg(out, &instr_expr[k], label, floats);
                push_text(out, " ");
                assert(out@ =~= old(out)@ + spec_instr_text(
                    v,
                    (k + 1) as nat,
                    label as nat,
                    floats@,
                ));
                k = k + 1;
            }
            push_text(out, "\n");
            assert(out@ =~= old(out)@ + spec_seg_text(seg@, label as nat, floats@));
        },
    }
}

/// Appends the text of one segment of a block, with the blank behind it
/// where one is owed, and tells how many segments a blank still follows.
fn push_step(
    out: &mut Vec<char>,
    seg: &ExprSeg,
    until: usize,
    label: usize,
    floats: &FloatTexts,
) -> (owed: usize)
    ensures
        final(out)@ == old(out)@ + spec_step_text(seg@, until as nat, label as nat, floats@),
        owed == spec_less(spec_owed(seg@, until as nat)),
    decreases seg, 1nat,
{
    let mut emit_until = until;
    match seg {
        ExprSeg::Operation(info) => {
            let special_case = get_edge_case(*info);
            push_text(out, info.name);
            emit_until = if special_case == SpecialInstr::CallIndirect {
                2
            } else if special_case == SpecialInstr::BeginBlock {
                1
            } else if info.constants.len() != 0 {
                1
            } else {
                0
            };
        },
        ExprSeg::ControlFlow(info, inner, end_info) => {
            proof {
                lemma_seg_view_control(*info, *inner, *end_info);
            }
            push_labelled(out, info.name, label);
            push_text(out, "\n  ");
            let body = block_chars(inner, 0, 0, next_label(label), floats);
            let mut padded: Vec<char> = Vec::new();
            push_padded(&mut padded, &body.1, &two_blanks());
            assert(padded@ =~= spec_padded(body.1@, "  "@));
            trim_end(&mut padded);
            push_chars(out, &padded);
            push_text(out, "\n");
            push_labelled(out, end_info.name, label);
            push_text(out, "\n");
        },
        _ => {
            push_seg(out, seg, label, floats);
        },
    }
    if emit_until > 0 {
        push_text(out, " ");
        emit_until = emit_until - 1;
    }
    assert(out@ =~= old(out)@ + spec_step_text(seg@, until as nat, label as nat, floats@));
    emit_until
}

/// Whether a segment is a bare `end`.
fn is_end(seg: &ExprSeg) -> (r: bool)
    ensures
        r == spec_is_end(seg@),
{
    match seg {
        ExprSeg::Operation(info) => get_edge_case(*info) == SpecialInstr::EndBlock,
        _ => false,
    }
}

/// The text of the segments of an expression from `start` up to the first
/// bare `end`, and the place of that `end`.
pub fn block_chars(
    expr: &WasmExpr,
    start: usize,
    spaced: usize,
    label: usize,
    floats: &FloatTexts,
) -> (r: (usize, Vec<char>))
    ensures
        r.0 == spec_block(expr@, start as int, spaced as nat, label as nat, floats@).0,
        r.1@ == spec_block(expr@, start as int, spaced as nat, label as nat, floats@).1,
    decreases expr, 0nat,
{
    let ghost segs = expr@;
    let ghost whole = spec_block(segs, start as int, spaced as nat, label as nat, floats@);
    let n = expr.expr_string.len();
    let mut out: Vec<char> = Vec::new();
    let mut emit_until = spaced;
    let mut i: usize = start;
    assert(out@ + whole.1 =~= whole.1);
    while i < n
        invariant
            n == expr.expr_string@.len(),
            segs == expr@,
            start <= i,
            decreases_to!(expr => expr.expr_string),
            whole == spec_block(segs, start as int, spaced as nat, label as nat, floats@),
            whole.0 == spec_block(segs, i as int, emit_until as nat, label as nat, floats@).0,
            whole.1 == out@ + spec_block(
                segs,
                i as int,
                emit_until as nat,
                label as nat,
                floats@,
            ).1,
        decreases n - i,
    {
        let seg = &expr.expr_string[i];
        let ghost before = out@;
        let ghost until = emit_until as nat;
        proof {
            assert(segs[i as int] == seg@);
            vstd::std_specs::vec::axiom_vec_index_decreases(expr.expr_string, i as int);
        }
        if is_end(seg) {
            assert(out@ + Seq::<char>::empty() =~= out@);
            return (i, out);
        }
        emit_until = push_step(&mut out, seg, emit_until, label, floats);
        proof {
            let step = spec_step_text(seg@, until, label as nat, floats@);
            let rest = spec_block(segs, i + 1, emit_until as nat, label as nat, floats@);
            assert(before + (step + rest.1) =~= (before + step) + rest.1);
        }
        i = i + 1;
    }
    assert(out@ + Seq::<char>::empty() =~= out@);
    (
        if n > 0 {
            n - 1
        } else {
            0
        },
        out,
    )
}

impl ExprSeg {
    /// The text `wat` with the text of the segment behind it.
    pub fn emit_wat(&self, wat: String, state: EmitterState, floats: &FloatTexts) -> (r: String)
        ensures
            r@ == wat@ + spec_seg_text(self@, state.label as nat, floats@),
    {
        let mut out = to_chars(wat.as_str());
        push_seg(&mut out, self, state.label, floats);
        from_chars(&out)
    }
}

impl WasmExpr {
    /// The text of the segments from where `state` starts up to the first
    /// bare `end`, and the place of that `end`.
    pub fn emit_block_wat(&self, state: EmitterState, floats: &FloatTexts) -> (r: (usize, String))
        ensures
            r.0 == spec_block(self@, state.start_segment as int, 0, state.label as nat, floats@).0,
            r.1@ == spec_block(
                self@,
                state.start_segment as int,
                0,
                state.label as nat,
                floats@,
            ).1,
    {
        let block = block_chars(self, state.start_segment, 0, state.label, floats);
        (block.0, from_chars(&block.1))
    }

    /// The text of the expression: its blocks, each in brackets.
    pub fn emit_expression_wat(&self, floats: &FloatTexts) -> (r: String)
        ensures
            r@ == spec_expression_text(self@, floats@),
    {
        let mut out: Vec<char> = Vec::new();
        self.push_expression(&mut out, floats);
        from_chars(&out)
    }

    /// Appends the text of the expression.
    pub fn push_expression(&self, out: &mut Vec<char>, floats: &FloatTexts)
        ensures
            final(out)@ == old(out)@ + spec_expression_text(self@, floats@),
    {
        let ghost segs = self@;
        let n = self.expr_string.len();
        let mut wat: Vec<char> = Vec::new();
        let mut i: usize = 0;
        assert(wat@ + spec_blocks(segs, 0, floats@) =~= spec_blocks(segs, 0, floats@));
        while n > 0 && i < n - 1
            invariant
                n == self.expr_string@.len(),
                segs == self@,
                i <= n,
                wat@ + spec_blocks(segs, i as int, floats@) == spec_blocks(segs, 0, floats@),
            decreases n - i,
        {
            proof {
                lemma_block_ends(segs, i as int, 0, 0, floats@);
            }
            let ghost before = wat@;
            let ghost rest = spec_blocks(segs, i as int, floats@);
            push_text(&mut wat, "(");
            let block = block_chars(self, i, 0, 0, floats);
            let mut text = block.1;
            trim_end(&mut text);
            push_chars(&mut wat, &text);
            push_text(&mut wat, ") ");
            proof {
                let next = spec_blocks(segs, block.0 + 1, floats@);
                assert(rest == "("@ + spec_trim_end(block.1@) + ") "@ + next);
                assert(wat@ + next =~= before + rest);
            }
            i = block.0 + 1;
        }
        if wat.len() > 0 {
            wat.pop();
        }
        assert(wat@ + Seq::<char>::empty() =~= wat@);
        push_chars(out, &wat);
    }
}

/// The bits of the floating-point immediates of 32 bits in a segment, in
/// order.
pub open spec fn spec_singles(s: SegModel) -> Seq<u32>
    decreases s,
{
    match s {
        SegModel::Float32(bits) => seq![bits],
        SegModel::ControlFlow(opener, body, end) => spec_singles_all(body),
        SegModel::Instr(v) => spec_singles_all(v),
        _ => Seq::empty(),
    }
}

/// The bits of the floating-point immediates of 32 bits in segments, in
/// order.
pub open spec fn spec_singles_all(v: Seq<SegModel>) -> Seq<u32>
    decreases v,
{
    if v.len() == 0 {
        Seq::empty()
    } else {
        spec_singles_all(v.drop_last()) + spec_singles(v.last())
    }
}

/// The bits of the floating-point immediates of 64 bits in a segment, in
/// order.
pub open spec fn spec_doubles(s: SegModel) -> Seq<u64>
    decreases s,
{
    match s {
        SegModel::Float64(bits) => seq![bits],
        SegModel::ControlFlow(opener, body, end) => spec_doubles_all(body),
        SegModel::Instr(v) => spec_doubles_all(v),
        _ => Seq::empty(),
    }
}

/// The bits of the floating-point immediates of 64 bits in segments, in
/// order.
pub open spec fn spec_doubles_all(v: Seq<SegModel>) -> Seq<u64>
    decreases v,
{
    if v.len() == 0 {
        Seq::empty()
    } else {
        spec_doubles_all(v.drop_last()) + spec_doubles(v.last())
    }
}

/// Appends the bits of the floating-point immediates of segments.
pub fn push_floats(segs: &Vec<ExprSeg>, singles: &mut Vec<u32>, doubles: &mut Vec<u64>)
    ensures
        final(singles)@ == old(singles)@ + spec_singles_all(segs_view(segs@)),
        final(doubles)@ == old(doubles)@ + spec_doubles_all(segs_view(segs@)),
    decreases segs,
{
    let ghost v = segs_view(segs@);
    let mut i: usize = 0;
    assert(v.take(0) =~= Seq::<SegModel>::empty());
    assert(singles@ =~= old(singles)@ + spec_singles_all(v.take(0)));
    assert(doubles@ =~= old(doubles)@ + spec_doubles_all(v.take(0)));
    while i < segs.len()
        invariant
            i <= segs@.len(),
            v == segs_view(segs@),
            singles@ == old(singles)@ + spec_singles_all(v.take(i as int)),
            doubles@ == old(doubles)@ + spec_doubles_all(v.take(i as int)),
        decreases segs@.len() - i,
    {
        let ghost had_singles = singles@;
        let ghost had_doubles = doubles@;
        proof {
            vstd::std_specs::vec::axiom_vec_index_decreases(*segs, i as int);
            assert(v.take(i + 1).drop_last() =~= v.take(i as int));
            assert(v.take(i + 1).last() == segs@[i as int]@);
        }
        match &segs[i] {
            ExprSeg::Float32(bits) => {
                singles.push(*bits);
                assert(singles@ =~= had_singles + seq![*bits]);
                assert(doubles@ =~= had_doubles + Seq::<u64>::empty());
            },
            ExprSeg::Float64(bits) => {
                doubles.push(*bits);
                assert(doubles@ =~= had_doubles + seq![*bits]);
                assert(singles@ =~= had_singles + Seq::<u32>::empty());
            },
            ExprSeg::ControlFlow(opener, body, end) => {
                proof {
                    lemma_seg_view_control(*opener, *body, *end);
                }
                push_floats(&body.expr_string, singles, doubles);
            },
            ExprSeg::Instr(inner) => {
                proof {
                    lemma_seg_view_instr(*inner);
                }
                push_floats(inner, singles, doubles);
            },
            _ => {
                assert(singles@ =~= had_singles + Seq::<u32>::empty());
                assert(doubles@ =~= had_doubles + Seq::<u64>::empty());
            },
        }
        proof {
            let cur = segs@[i as int]@;
            assert(singles@ =~= old(singles)@ + (spec_singles_all(v.take(i as int))
                + spec_singles(cur)));
            assert(doubles@ =~= old(doubles)@ + (spec_doubles_all(v.take(i as int))
                + spec_doubles(cur)));
        }
        i = i + 1;
    }
    assert(v.take(i as int) =~= v);
}

/// The expressions of the first `upto` element segments: of each the
/// offset, where it is active, then the initializer.
pub open spec fn spec_elem_exprs(file: FileModel, upto: nat) -> Seq<Seq<SegModel>>
    decreases upto,
{
    if upto == 0 || upto > file.elem_section.entries.len() {
        Seq::empty()
    } else {
        let e = file.elem_section.entries[upto - 1];
        spec_elem_exprs(file, (upto - 1) as nat) + (match e.mode {
            ElemModeModel::Active { table, offset_expr } => seq![offset_expr],
            _ => Seq::empty(),
        }) + seq![e.init]
    }
}

/// The expressions of a module, in the order in which its text shows
/// them: the initializers of the globals, the expressions of the element
/// segments, the bodies of the functions, the offsets of the data
/// segments.
pub open spec fn spec_file_exprs(file: FileModel) -> Seq<Seq<SegModel>> {
    Seq::new(file.global_section.entries.len(), |i: int| file.global_section.entries[i].expr)
        + spec_elem_exprs(file, file.elem_section.entries.len()) + Seq::new(
        file.code_section.entries.len(),
        |i: int| file.code_section.entries[i].body,
    ) + Seq::new(file.data_section.entries.len(), |i: int| file.data_section.entries[i].expr)
}

/// The views of expressions, in order.
pub open spec fn spec_expr_views(v: Seq<&WasmExpr>) -> Seq<Seq<SegModel>> {
    Seq::new(v.len(), |i: int| v[i]@)
}

/// The bits of the floating-point immediates of 32 bits in the first
/// `upto` of some expressions, in order.
pub open spec fn spec_exprs_singles(exprs: Seq<Seq<SegModel>>, upto: nat) -> Seq<u32>
    decreases upto,
{
    if upto == 0 || upto > exprs.len() {
        Seq::empty()
    } else {
        spec_exprs_singles(exprs, (upto - 1) as nat) + spec_singles_all(exprs[upto - 1])
    }
}

/// The bits of the floating-point immediates of 64 bits in the first
/// `upto` of some expressions, in order.
pub open spec fn spec_exprs_doubles(exprs: Seq<Seq<SegModel>>, upto: nat) -> Seq<u64>
    decreases upto,
{
    if upto == 0 || upto > exprs.len() {
        Seq::empty()
    } else {
        spec_exprs_doubles(exprs, (upto - 1) as nat) + spec_doubles_all(exprs[upto - 1])
    }
}

impl WasmFile {
    /// The expressions of the module, in the order in which its text
    /// shows them.
    pub fn expressions(&self) -> (r: Vec<&WasmExpr>)
        ensures
            spec_expr_views(r@) == spec_file_exprs(self@),
    {
        let ghost file = self@;
        proof {
            lemma_views_index(self);
        }
        let mut out: Vec<&WasmExpr> = Vec::new();
        let ghost globals = Seq::new(
            file.global_section.entries.len(),
            |i: int| file.global_section.entries[i].expr,
        );
        let mut i: usize = 0;
        assert(spec_expr_views(out@) =~= globals.take(0));
        while i < self.global_section.globals.len()
            invariant
                i <= self.global_section.globals@.len(),
                file == self@,
                globals == Seq::new(
                    file.global_section.entries.len(),
                    |i: int| file.global_section.entries[i].expr,
                ),
                spec_expr_views(out@) == globals.take(i as int),
            decreases self.global_section.globals@.len() - i,
        {
            proof {
                lemma_views_index(self);
            }
            let expr = &self.global_section.globals[i].expr;
            assert(globals[i as int] == expr@);
            assert(spec_expr_views(out@.push(expr)) =~= spec_expr_views(out@).push(expr@));
            assert(globals.take(i + 1) =~= globals.take(i as int).push(expr@));
            out.push(expr);
            i = i + 1;
        }
        assert(globals.take(i as int) =~= globals);
        let mut i: usize = 0;
        assert(spec_expr_views(out@) =~= globals + spec_elem_exprs(file, 0));
        while i < self.elem_section.elems.len()
            invariant
                i <= self.elem_section.elems@.len(),
                file == self@,
                spec_expr_views(out@) == globals + spec_elem_exprs(file, i as nat),
            decreases self.elem_section.elems@.len() - i,
        {
            proof {
                lemma_views_index(self);
            }
            let ghost before = spec_expr_views(out@);
            match &self.elem_section.elems[i].mode {
                WasmElemMode::Active(active) => {
                    let expr = &active.offset_expr;
                    assert(spec_expr_views(out@.push(expr)) =~= before.push(expr@));
                    out.push(expr);
                },
                _ => {},
            }
            let ghost middle = spec_expr_views(out@);
            let init = &self.elem_section.elems[i].init;
            assert(spec_expr_views(out@.push(init)) =~= middle.push(init@));
            out.push(init);
            assert(spec_expr_views(out@) =~= globals + spec_elem_exprs(file, (i + 1) as nat));
            i = i + 1;
        }
        let ghost elems = spec_elem_exprs(file, file.elem_section.entries.len());
        let ghost bodies = Seq::new(
            file.code_section.entries.len(),
            |i: int| file.code_section.entries[i].body,
        );
        let mut i: usize = 0;
        assert(spec_expr_views(out@) =~= globals + elems + bodies.take(0));
        while i < self.code_section.functions.len()
            invariant
                i <= self.code_section.functions@.len(),
                file == self@,
                bodies == Seq::new(
                    file.code_section.entries.len(),
                    |i: int| file.code_section.entries[i].body,
                ),
                spec_expr_views(out@) == globals + elems + bodies.take(i as int),
            decreases self.code_section.functions@.len() - i,
        {
            proof {
                lemma_views_index(self);
            }
            let expr = &self.code_section.functions[i].body;
            assert(bodies[i as int] == expr@);
            assert(spec_expr_views(out@.push(expr)) =~= spec_expr_views(out@).push(expr@));
            assert(globals + elems + bodies.take(i + 1) =~= (globals + elems + bodies.take(
                i as int,
            )).push(expr@));
            out.push(expr);
            i = i + 1;
        }
        assert(bodies.take(i as int) =~= bodies);
        let ghost offsets = Seq::new(
            file.data_section.entries.len(),
            |i: int| file.data_section.entries[i].expr,
        );
        let mut i: usize = 0;
        assert(spec_expr_views(out@) =~= globals + elems + bodies + offsets.take(0));
        while i < self.data_section.data_segs.len()
            invariant
                i <= self.data_section.data_segs@.len(),
                file == self@,
                offsets == Seq::new(
                    file.data_section.entries.len(),
                    |i: int| file.data_section.entries[i].expr,
                ),
                spec_expr_views(out@) == globals + elems + bodies + offsets.take(i as int),
            decreases self.data_section.data_segs@.len() - i,
        {
            proof {
                lemma_views_index(self);
            }
            let expr = &self.data_section.data_segs[i].header.expr;
            assert(offsets[i as int] == expr@);
            assert(spec_expr_views(out@.push(expr)) =~= spec_expr_views(out@).push(expr@));
            assert(globals + elems + bodies + offsets.take(i + 1) =~= (globals + elems + bodies
                + offsets.take(i as int)).push(expr@));
            out.push(expr);
            i = i + 1;
        }
        assert(offsets.take(i as int) =~= offsets);
        out
    }

    /// The bits of the floating-point immediates of the module, those of
    /// 32 bits and those of 64 bits, in the order in which its text shows
    /// them.
    pub fn float_immediates(&self) -> (r: (Vec<u32>, Vec<u64>))
        ensures
            r.0@ == spec_exprs_singles(spec_file_exprs(self@), spec_file_exprs(self@).len()),
            r.1@ == spec_exprs_doubles(spec_file_exprs(self@), spec_file_exprs(self@).len()),
    {
        let exprs = self.expressions();
        let ghost views = spec_file_exprs(self@);
        let mut singles: Vec<u32> = Vec::new();
        let mut doubles: Vec<u64> = Vec::new();
        let mut i: usize = 0;
        while i < exprs.len()
            invariant
                i <= exprs@.len(),
                views == spec_expr_views(exprs@),
                singles@ == spec_exprs_singles(views, i as nat),
                doubles@ == spec_exprs_doubles(views, i as nat),
            decreases exprs@.len() - i,
        {
            assert(views[i as int] == exprs@[i as int]@);
            push_floats(&exprs[i].expr_string, &mut singles, &mut doubles);
            i = i + 1;
        }
        (singles, doubles)
    }
}

} // verus!
