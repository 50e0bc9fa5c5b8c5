//! The opcodes of an expression in the order of a walk through it, and
//! that decoding and building keep them: they are the opcodes of the bytes,
//! and of the flat run, in the same order.

use crate::file_reader::{lemma_expr_advance, lemma_operands_advance, spec_expr, spec_operands};
use crate::instr_table::{lemma_unassigned_is_empty, spec_instr};
use crate::wasm_model::{spec_build, spec_edge_case, spec_taken, InstrModel, SegModel, SpecialInstr};
use vstd::prelude::*;

verus! {

/// The opcode at the head of an instruction, where it has one.
pub open spec fn spec_head(v: Seq<SegModel>) -> Seq<u8> {
    if v.len() > 0 {
        match v[0] {
            SegModel::Operation(i) => seq![i.instr],
            _ => Seq::empty(),
        }
    } else {
        Seq::empty()
    }
}

/// The opcodes of a segment in the order of a walk: that of a bare opcode;
/// that of the head of an instruction; of a block that of its opener and
/// then those of its body, which ends with the closer.
pub open spec fn spec_ops(s: SegModel) -> Seq<u8>
    decreases s,
{
    match s {
        SegModel::Operation(i) => seq![i.instr],
        SegModel::ControlFlow(opener, body, end) => seq![opener.instr] + spec_ops_all(body),
        SegModel::Instr(v) => spec_head(v),
        _ => Seq::empty(),
    }
}

/// The opcodes of segments in a row, in the order of a walk.
pub open spec fn spec_ops_all(v: Seq<SegModel>) -> Seq<u8>
    decreases v,
{
    if v.len() == 0 {
        Seq::empty()
    } else {
        spec_ops_all(v.drop_last()) + spec_ops(v.last())
    }
}

/// The opcodes of two rows of segments are those of the first and then
/// those of the second.
pub proof fn lemma_ops_joined(a: Seq<SegModel>, b: Seq<SegModel>)
    ensures
        spec_ops_all(a + b) == spec_ops_all(a) + spec_ops_all(b),
    decreases b.len(),
{
    if b.len() == 0 {
        assert(a + b =~= a);
        assert(spec_ops_all(a) + spec_ops_all(b) =~= spec_ops_all(a));
    } else {
        lemma_ops_joined(a, b.drop_last());
        assert((a + b).drop_last() =~= a + b.drop_last());
        assert((a + b).last() == b.last());
        assert(spec_ops_all(a + b) =~= spec_ops_all(a) + spec_ops_all(b));
    }
}

/// The opcodes of one segment as a row.
pub proof fn lemma_ops_one(s: SegModel)
    ensures
        spec_ops_all(seq![s]) == spec_ops(s),
{
    reveal_with_fuel(spec_ops_all, 3);
    assert(seq![s].drop_last() =~= Seq::<SegModel>::empty());
    assert(spec_ops_all(seq![s]) =~= spec_ops(s));
}

/// The opcodes of the instructions that stand in the bytes from `pos` up to
/// `end`, one after the other, each followed by its immediates.
pub open spec fn spec_stream(bytes: Seq<u8>, pos: int, end: int) -> Seq<u8>
    decreases
            (if pos < end {
                end - pos
            } else {
                0
            }),
{
    if pos < 0 || pos >= end || pos >= bytes.len() {
        Seq::empty()
    } else {
        match spec_operands(bytes, pos + 1, spec_instr(bytes[pos])) {
            Ok((operands, p)) => if p <= pos {
                // never so: an instruction holds at least its opcode
                Seq::empty()
            } else {
                seq![bytes[pos]] + spec_stream(bytes, p, end)
            },
            Err(e) => Seq::empty(),
        }
    }
}

/// The opcodes of the bytes from the start of an expression are those of
/// a walk through the expression, and then those of the bytes behind it.
pub proof fn lemma_decoded_opcodes(bytes: Seq<u8>, pos: int, upto: int)
    ensures
        spec_expr(bytes, pos) matches Ok((segs, end)) ==> (upto >= end ==> spec_stream(
            bytes,
            pos,
            upto,
        ) == spec_ops_all(segs) + spec_stream(bytes, end, upto)),
    decreases
            (if pos < bytes.len() {
                bytes.len() - pos
            } else {
                0
            }),
{
    if pos < 0 || pos >= bytes.len() {
    } else {
        let info = spec_instr(bytes[pos]);
        lemma_operands_advance(bytes, pos + 1, info);
        lemma_unassigned_is_empty(bytes[pos]);
        match spec_operands(bytes, pos + 1, info) {
            Err(e) => {},
            Ok((operands, p)) => {
                lemma_expr_advance(bytes, p);
                match spec_edge_case(info.instr) {
                    SpecialInstr::EndBlock => {
                        if upto >= p {
                            lemma_ops_one(SegModel::Operation(info));
                        }
                    },
                    SpecialInstr::BeginBlock => {
                        lemma_decoded_opcodes(bytes, p, upto);
                        match spec_expr(bytes, p) {
                            Err(e) => {},
                            Ok((body, q)) => {
                                lemma_decoded_opcodes(bytes, q, upto);
                                lemma_expr_advance(bytes, q);
                                match spec_expr(bytes, q) {
                                    Err(e) => {},
                                    Ok((rest, r)) => {
                                        if upto >= r {
                                            let block = SegModel::ControlFlow(
                                                info,
                                                body,
                                                crate::file_reader::spec_end(),
                                            );
                                            lemma_ops_one(block);
                                            lemma_ops_joined(seq![block], rest);
                                            assert(spec_stream(bytes, pos, upto) =~= spec_ops_all(
                                                seq![block] + rest,
                                            ) + spec_stream(bytes, r, upto));
                                        }
                                    },
                                }
                            },
                        }
                    },
                    _ => {
                        lemma_decoded_opcodes(bytes, p, upto);
                        match spec_expr(bytes, p) {
                            Err(e) => {},
                            Ok((rest, r)) => {
                                if upto >= r {
                                    let layout = seq![SegModel::Operation(info)] + operands;
                                    let instr = SegModel::Instr(layout);
                                    assert(layout[0] == SegModel::Operation(info));
                                    lemma_ops_one(instr);
                                    lemma_ops_joined(seq![instr], rest);
                                    assert(spec_stream(bytes, pos, upto) =~= spec_ops_all(
                                        seq![instr] + rest,
                                    ) + spec_stream(bytes, r, upto));
                                }
                            },
                        }
                    },
                }
            },
        }
    }
}

/// A walk through a decoded expression meets the opcodes of its bytes, in
/// the order of the bytes.
pub proof fn lemma_opcodes_in_order(bytes: Seq<u8>, pos: int)
    ensures
        spec_expr(bytes, pos) matches Ok((segs, end)) ==> spec_ops_all(segs) == spec_stream(
            bytes,
            pos,
            end,
        ),
{
    match spec_expr(bytes, pos) {
        Err(e) => {},
        Ok((segs, end)) => {
            lemma_decoded_opcodes(bytes, pos, end);
            assert(spec_ops_all(segs) + spec_stream(bytes, end, end) =~= spec_ops_all(segs));
        },
    }
}

/// The opcodes that a walk through the expressions of a builder meets
/// whose blocks `openers` are open: those of each enclosing expression and
/// of the opener behind it, outermost first, then those of the expression
/// in progress.
pub open spec fn spec_pending(
    outers: Seq<Seq<SegModel>>,
    openers: Seq<InstrModel>,
    cur: Seq<SegModel>,
) -> Seq<u8>
    decreases outers.len(),
{
    if outers.len() == 0 || openers.len() == 0 {
        spec_ops_all(cur)
    } else {
        spec_pending(outers.drop_last(), openers.drop_last(), outers.last()) + seq![
            openers.last().instr,
        ] + spec_ops_all(cur)
    }
}

/// The opcodes of a flat run from `pos` on, in which each opcode is
/// followed by its immediates, up to the `end` that closes the outermost
/// of `depth` open blocks and the expression around them.
pub open spec fn spec_run_ops(input: Seq<SegModel>, pos: int, depth: nat) -> Seq<u8>
    decreases input.len() - pos,
{
    if pos < 0 || pos >= input.len() {
        Seq::empty()
    } else {
        match input[pos] {
            SegModel::Operation(info) => {
                let next = pos + 1 + spec_taken(info);
                if next > input.len() {
                    Seq::empty()
                } else {
                    match spec_edge_case(info.instr) {
                        SpecialInstr::BeginBlock => seq![info.instr] + spec_run_ops(
                            input,
                            next,
                            depth + 1,
                        ),
                        SpecialInstr::EndBlock => if depth == 0 {
                            seq![info.instr]
                        } else {
                            seq![info.instr] + spec_run_ops(input, next, (depth - 1) as nat)
                        },
                        _ => seq![info.instr] + spec_run_ops(input, next, depth),
                    }
                }
            },
            _ => Seq::empty(),
        }
    }
}

/// Whether a flat run, from `pos` on, closes each of `depth` open blocks
/// before it ends.
pub open spec fn spec_run_closes(input: Seq<SegModel>, pos: int, depth: nat) -> bool
    decreases input.len() - pos,
{
    if pos < 0 || pos >= input.len() {
        depth == 0
    } else {
        match input[pos] {
            SegModel::Operation(info) => {
                let next = pos + 1 + spec_taken(info);
                if next > input.len() {
                    false
                } else {
                    match spec_edge_case(info.instr) {
                        SpecialInstr::BeginBlock => spec_run_closes(input, next, depth + 1),
                        SpecialInstr::EndBlock => depth == 0 || spec_run_closes(
                            input,
                            next,
                            (depth - 1) as nat,
                        ),
                        _ => spec_run_closes(input, next, depth),
                    }
                }
            },
            _ => false,
        }
    }
}

proof fn lemma_pending_pushed(
    outers: Seq<Seq<SegModel>>,
    openers: Seq<InstrModel>,
    cur: Seq<SegModel>,
    s: SegModel,
)
    ensures
        spec_pending(outers, openers, cur.push(s)) == spec_pending(outers, openers, cur)
            + spec_ops(s),
{
    assert(cur.push(s).drop_last() =~= cur);
    assert(spec_ops_all(cur.push(s)) == spec_ops_all(cur) + spec_ops(s));
    assert(spec_pending(outers, openers, cur.push(s)) =~= spec_pending(outers, openers, cur)
        + spec_ops(s));
}

/// What the builder makes of a flat run that closes its blocks holds, in
/// the order of a walk, the opcodes that were pending and then those of the
/// run.
pub proof fn lemma_built_opcodes(
    input: Seq<SegModel>,
    pos: int,
    outers: Seq<Seq<SegModel>>,
    openers: Seq<InstrModel>,
    cur: Seq<SegModel>,
)
    requires
        outers.len() == openers.len(),
        spec_run_closes(input, pos, outers.len()),
    ensures
        spec_build(input, pos, outers, openers, cur) matches Ok(segs) ==> spec_ops_all(segs)
            == spec_pending(outers, openers, cur) + spec_run_ops(input, pos, outers.len()),
    decreases input.len() - pos,
{
    if pos < 0 || pos >= input.len() {
        assert(spec_ops_all(cur) + Seq::<u8>::empty() =~= spec_ops_all(cur));
    } else {
        match input[pos] {
            SegModel::Operation(info) => {
                let next = pos + 1 + spec_taken(info);
                if next <= input.len() {
                    match spec_edge_case(info.instr) {
                        SpecialInstr::BeginBlock => {
                            lemma_built_opcodes(
                                input,
                                next,
                                outers.push(cur),
                                openers.push(info),
                                Seq::empty(),
                            );
                            assert(outers.push(cur).drop_last() =~= outers);
                            assert(openers.push(info).drop_last() =~= openers);
                            assert(spec_pending(outers.push(cur), openers.push(info), Seq::empty())
                                =~= spec_pending(outers, openers, cur) + seq![info.instr]);
                            match spec_build(input, pos, outers, openers, cur) {
                                Ok(segs) => {
                                    assert(spec_ops_all(segs) =~= spec_pending(outers, openers, cur)
                                        + spec_run_ops(input, pos, outers.len()));
                                },
                                Err(e) => {},
                            }
                        },
                        SpecialInstr::EndBlock => {
                            let closed = cur.push(SegModel::Operation(info));
                            lemma_pending_pushed(outers, openers, cur, SegModel::Operation(info));
                            if outers.len() == 0 {
                                assert(spec_ops_all(closed) =~= spec_pending(outers, openers, cur)
                                    + spec_run_ops(input, pos, outers.len()));
                            } else {
                                let block = SegModel::ControlFlow(openers.last(), closed, info);
                                let around = outers.last().push(block);
                                lemma_built_opcodes(
                                    input,
                                    next,
                                    outers.drop_last(),
                                    openers.drop_last(),
                                    around,
                                );
                                lemma_pending_pushed(
                                    outers.drop_last(),
                                    openers.drop_last(),
                                    outers.last(),
                                    block,
                                );
                                assert(spec_pending(outers.drop_last(), openers.drop_last(), around)
                                    =~= spec_pending(outers, openers, cur) + seq![info.instr]);
                                match spec_build(input, pos, outers, openers, cur) {
                                    Ok(segs) => {
                                        assert(spec_ops_all(segs) =~= spec_pending(
                                            outers,
                                            openers,
                                            cur,
                                        ) + spec_run_ops(input, pos, outers.len()));
                                    },
                                    Err(e) => {},
                                }
                            }
                        },
                        _ => {
                            let instr = SegModel::Instr(input.subrange(pos, next));
                            assert(input.subrange(pos, next)[0] == input[pos]);
                            lemma_built_opcodes(input, next, outers, openers, cur.push(instr));
                            lemma_pending_pushed(outers, openers, cur, instr);
                            match spec_build(input, pos, outers, openers, cur) {
                                Ok(segs) => {
                                    assert(spec_ops_all(segs) =~= spec_pending(outers, openers, cur)
                                        + spec_run_ops(input, pos, outers.len()));
                                },
                                Err(e) => {},
                            }
                        },
                    }
                }
            },
            _ => {},
        }
    }
}

/// The expression that is built of a flat run which closes its blocks
/// holds, in the order of a walk, the opcodes of the run in their order.
pub proof fn lemma_build_keeps_opcodes(input: Seq<SegModel>)
    requires
        spec_run_closes(input, 0, 0),
    ensures
        spec_build(input, 0, Seq::empty(), Seq::empty(), Seq::empty()) matches Ok(segs)
            ==> spec_ops_all(segs) == spec_run_ops(input, 0, 0),
{
    lemma_built_opcodes(input, 0, Seq::empty(), Seq::empty(), Seq::empty());
    assert(spec_pending(Seq::empty(), Seq::empty(), Seq::empty()) =~= Seq::<u8>::empty());
    match spec_build(input, 0, Seq::empty(), Seq::empty(), Seq::empty()) {
        Ok(segs) => {
            assert(Seq::<u8>::empty() + spec_run_ops(input, 0, 0) =~= spec_run_ops(input, 0, 0));
        },
        Err(e) => {},
    }
}

} // verus!
