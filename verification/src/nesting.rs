//! How blocks nest in a decoded expression: every block closes with an
//! `end` of its own.

use crate::file_reader::{
    lemma_expr_advance, lemma_operands_advance, spec_br_table, spec_expr, spec_immediate,
    spec_immediates, spec_operands,
};
use crate::instr_table::spec_instr;
use crate::wasm_model::{spec_edge_case, InstrModel, Prim, SegModel, SpecialInstr};
use vstd::prelude::*;

verus! {

/// Whether a descriptor opens a block.
pub open spec fn spec_opens(i: InstrModel) -> bool {
    spec_edge_case(i.instr) == SpecialInstr::BeginBlock
}

/// Whether a descriptor closes a block.
pub open spec fn spec_closes(i: InstrModel) -> bool {
    spec_edge_case(i.instr) == SpecialInstr::EndBlock
}

/// How many openers a segment holds: itself, if it is one, and those of
/// the segments within it. The opener of a block counts once.
pub open spec fn spec_begins(s: SegModel) -> nat
    decreases s,
{
    match s {
        SegModel::Operation(i) => if spec_opens(i) {
            1
        } else {
            0
        },
        SegModel::ControlFlow(opener, body, end) => (if spec_opens(opener) {
            1nat
        } else {
            0nat
        }) + spec_begins_all(body),
        SegModel::Instr(v) => spec_begins_all(v),
        _ => 0,
    }
}

/// How many openers segments in a row hold.
pub open spec fn spec_begins_all(v: Seq<SegModel>) -> nat
    decreases v,
{
    if v.len() == 0 {
        0
    } else {
        spec_begins_all(v.drop_last()) + spec_begins(v.last())
    }
}

/// How many closers a segment holds: itself, if it is one, and those of
/// the segments within it. Of a block the closers are those of its body,
/// which ends with the closer of the block.
pub open spec fn spec_ends(s: SegModel) -> nat
    decreases s,
{
    match s {
        SegModel::Operation(i) => if spec_closes(i) {
            1
        } else {
            0
        },
        SegModel::ControlFlow(opener, body, end) => spec_ends_all(body),
        SegModel::Instr(v) => spec_ends_all(v),
        _ => 0,
    }
}

/// How many closers segments in a row hold.
pub open spec fn spec_ends_all(v: Seq<SegModel>) -> nat
    decreases v,
{
    if v.len() == 0 {
        0
    } else {
        spec_ends_all(v.drop_last()) + spec_ends(v.last())
    }
}

/// Whether each block in a segment, the segment itself too, is headed by
/// an opener, is closed by a closer with which its body ends, and holds as
/// many openers as closers; and each instruction in it is headed by its
/// opcode.
pub open spec fn spec_balanced(s: SegModel) -> bool
    decreases s,
{
    match s {
        SegModel::ControlFlow(opener, body, end) => {
            &&& spec_opens(opener)
            &&& spec_closes(end)
            &&& body.len() > 0
            &&& body.last() == SegModel::Operation(end)
            &&& spec_begins(s) == spec_ends(s)
            &&& forall|i: int| 0 <= i < body.len() ==> spec_balanced(#[trigger] body[i])
        },
        SegModel::Instr(v) => {
            &&& v.len() > 0
            &&& v[0] is Operation
            &&& forall|i: int| 0 <= i < v.len() ==> spec_balanced(#[trigger] v[i])
        },
        _ => true,
    }
}

/// Whether an expression nests well: each of its blocks is headed by an
/// opener, ends with its closer and holds as many openers as closers, and
/// the expression ends with the `end` that closes it, so that it holds one
/// closer more than openers.
pub open spec fn spec_well_nested(segs: Seq<SegModel>) -> bool {
    &&& forall|i: int| 0 <= i < segs.len() ==> spec_balanced(#[trigger] segs[i])
    &&& spec_begins_all(segs) + 1 == spec_ends_all(segs)
    &&& segs.len() > 0
    &&& segs.last() == SegModel::Operation(crate::file_reader::spec_end())
}

/// Whether a segment is an immediate: neither an opcode nor made of
/// segments.
pub open spec fn spec_is_immediate(s: SegModel) -> bool {
    !(s is Operation) && !(s is ControlFlow) && !(s is Instr)
}

proof fn lemma_counts_joined(a: Seq<SegModel>, b: Seq<SegModel>)
    ensures
        spec_begins_all(a + b) == spec_begins_all(a) + spec_begins_all(b),
        spec_ends_all(a + b) == spec_ends_all(a) + spec_ends_all(b),
    decreases b.len(),
{
    if b.len() == 0 {
        assert(a + b =~= a);
    } else {
        lemma_counts_joined(a, b.drop_last());
        assert((a + b).drop_last() =~= a + b.drop_last());
    }
}

proof fn lemma_counts_one(s: SegModel)
    ensures
        spec_begins_all(seq![s]) == spec_begins(s),
        spec_ends_all(seq![s]) == spec_ends(s),
{
    reveal_with_fuel(spec_begins_all, 3);
    reveal_with_fuel(spec_ends_all, 3);
    assert(seq![s].drop_last() =~= Seq::<SegModel>::empty());
}

proof fn lemma_immediates_count_nothing(v: Seq<SegModel>)
    requires
        forall|i: int| 0 <= i < v.len() ==> spec_is_immediate(#[trigger] v[i]),
    ensures
        spec_begins_all(v) == 0,
        spec_ends_all(v) == 0,
        forall|i: int| 0 <= i < v.len() ==> spec_balanced(#[trigger] v[i]),
    decreases v.len(),
{
    if v.len() > 0 {
        lemma_immediates_count_nothing(v.drop_last());
        assert(spec_is_immediate(v[v.len() - 1]));
        assert(spec_begins(v.last()) == 0);
        assert(spec_ends(v.last()) == 0);
    }
}

proof fn lemma_immediates_are_immediate(bytes: Seq<u8>, pos: int, types: Seq<Prim>, from: int)
    ensures
        spec_immediates(bytes, pos, types, from) matches Ok((v, p)) ==> forall|i: int|
            0 <= i < v.len() ==> spec_is_immediate(#[trigger] v[i]),
    decreases types.len() - from,
{
    if from < 0 || from >= types.len() {
    } else {
        match spec_immediate(bytes, pos, types[from]) {
            Err(e) => {},
            Ok((kept, next)) => {
                lemma_immediates_are_immediate(bytes, next, types, from + 1);
            },
        }
    }
}

proof fn lemma_operands_are_immediate(bytes: Seq<u8>, pos: int, info: InstrModel)
    ensures
        spec_operands(bytes, pos, info) matches Ok((v, p)) ==> forall|i: int|
            0 <= i < v.len() ==> spec_is_immediate(#[trigger] v[i]),
{
    lemma_immediates_are_immediate(bytes, pos, info.constants, 0);
    lemma_immediates_are_immediate(bytes, pos + 1, info.constants, 0);
    match spec_br_table(bytes, pos) {
        Err(e) => {},
        Ok((table, p)) => {},
    }
}

/// Every decoded expression nests well.
pub proof fn lemma_decoded_nests_well(bytes: Seq<u8>, pos: int)
    ensures
        spec_expr(bytes, pos) matches Ok((segs, p)) ==> spec_well_nested(segs),
    decreases
            (if pos < bytes.len() {
                bytes.len() - pos
            } else {
                0
            }),
{
    if pos < 0 || pos >= bytes.len() {
    } else {
        let info = spec_instr(bytes[pos]);
        lemma_operands_advance(bytes, pos + 1, info);
        lemma_operands_are_immediate(bytes, pos + 1, info);
        match spec_operands(bytes, pos + 1, info) {
            Err(e) => {},
            Ok((operands, p)) => {
                match spec_edge_case(info.instr) {
                    SpecialInstr::EndBlock => {
                        lemma_counts_one(SegModel::Operation(info));
                        assert(bytes[pos] == 0x0b) by {
                            crate::instr_table::lemma_unassigned_is_empty(bytes[pos]);
                        }
                        assert(seq![SegModel::Operation(info)].last() == SegModel::Operation(
                            info,
                        ));
                    },
                    SpecialInstr::BeginBlock => {
                        lemma_decoded_nests_well(bytes, p);
                        lemma_expr_advance(bytes, p);
                        match spec_expr(bytes, p) {
                            Err(e) => {},
                            Ok((body, q)) => {
                                lemma_decoded_nests_well(bytes, q);
                                match spec_expr(bytes, q) {
                                    Err(e) => {},
                                    Ok((rest, r)) => {
                                        let block = SegModel::ControlFlow(
                                            info,
                                            body,
                                            crate::file_reader::spec_end(),
                                        );
                                        lemma_counts_one(block);
                                        lemma_counts_joined(seq![block], rest);
                                        crate::instr_table::lemma_unassigned_is_empty(0x0b);
                                        assert(spec_closes(crate::file_reader::spec_end()));
                                        assert((seq![block] + rest).last() == rest.last());
                                        assert(spec_balanced(block));
                                        assert forall|i: int|
                                            0 <= i < (seq![block] + rest).len()
                                                implies spec_balanced(
                                            #[trigger] (seq![block] + rest)[i],
                                        ) by {
                                            if i > 0 {
                                                assert((seq![block] + rest)[i] == rest[i - 1]);
                                            }
                                        }
                                    },
                                }
                            },
                        }
                    },
                    _ => {
                        lemma_decoded_nests_well(bytes, p);
                        match spec_expr(bytes, p) {
                            Err(e) => {},
                            Ok((rest, r)) => {
                                let head = SegModel::Operation(info);
                                let layout = seq![head] + operands;
                                let instr = SegModel::Instr(layout);
                                lemma_immediates_count_nothing(operands);
                                lemma_counts_one(head);
                                lemma_counts_joined(seq![head], operands);
                                lemma_counts_one(instr);
                                lemma_counts_joined(seq![instr], rest);
                                assert(layout[0] == head);
                                assert((seq![instr] + rest).last() == rest.last());
                                assert forall|i: int| 0 <= i < layout.len() implies spec_balanced(
                                    #[trigger] layout[i],
                                ) by {
                                    if i > 0 {
                                        assert(layout[i] == operands[i - 1]);
                                    }
                                }
                            },
                        }
                    },
                }
            },
        }
    }
}

} // verus!
