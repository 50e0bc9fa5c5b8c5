//! The byte reader and the decoder of a binary module.

use crate::instr_table::{instr_info, lemma_unassigned_is_empty, spec_instr};
use crate::wasm_model::{
    get_edge_case, lemma_seg_view_control, lemma_seg_view_instr, lemma_segs_view_push, segs_view,
    spec_edge_case, BrTableConst, ExprSeg, InstrInfo, InstrModel, Prim, SegModel, SpecialInstr,
    WasmError, WasmExpr,
};
use vstd::prelude::*;

verus! {

/// 128 to the power `n`.
pub open spec fn pow128(n: nat) -> int
    decreases n,
{
    if n == 0 {
        1
    } else {
        128 * pow128((n - 1) as nat)
    }
}

/// Powers of 128 are positive, and those up to the tenth are the numbers
/// that they are.
pub proof fn lemma_pow128_bounds(n: nat)
    ensures
        pow128(n) >= 1,
        n <= 9 ==> pow128(n) <= 0x8000_0000_0000_0000,
        n == 9 ==> pow128(n) == 0x8000_0000_0000_0000,
        n == 10 ==> pow128(n) == 0x40_0000_0000_0000_0000,
    decreases n,
{
    reveal_with_fuel(pow128, 11);
    if n > 10 {
        lemma_pow128_bounds((n - 1) as nat);
    }
}

/// One byte at `pos`.
pub open spec fn spec_u8(bytes: Seq<u8>, pos: int) -> Result<(u8, int), WasmError> {
    if 0 <= pos < bytes.len() {
        Ok((bytes[pos], pos + 1))
    } else {
        Err(WasmError::UnexpectedEof)
    }
}

/// Four bytes at `pos`, least significant first.
pub open spec fn spec_u32(bytes: Seq<u8>, pos: int) -> Result<(u32, int), WasmError> {
    if 0 <= pos && pos + 4 <= bytes.len() {
        Ok(
            (
                (bytes[pos] + 0x100 * bytes[pos + 1] + 0x1_0000 * bytes[pos + 2] + 0x100_0000
                    * bytes[pos + 3]) as u32,
                pos + 4,
            ),
        )
    } else {
        Err(WasmError::UnexpectedEof)
    }
}

/// Eight bytes at `pos`, least significant first.
pub open spec fn spec_u64(bytes: Seq<u8>, pos: int) -> Result<(u64, int), WasmError> {
    match spec_u32(bytes, pos) {
        Ok((low, mid)) => match spec_u32(bytes, mid) {
            Ok((high, end)) => Ok(((low + 0x1_0000_0000 * high) as u64, end)),
            Err(e) => Err(e),
        },
        Err(e) => Err(e),
    }
}

/// The 7-bit groups of a LEB128 number that starts at `pos`, where `before`
/// groups of the same number precede it: their value, lowest group first,
/// and their count. The tenth group of a number ends it whatever its high
/// bit says.
pub open spec fn spec_leb_groups(bytes: Seq<u8>, pos: int, before: nat) -> Option<(int, nat)>
    decreases 10 - before,
{
    if pos < 0 || pos >= bytes.len() {
        None
    } else if bytes[pos] < 128 || before >= 9 {
        Some(((bytes[pos] % 128) as int, 1))
    } else {
        match spec_leb_groups(bytes, pos + 1, before + 1) {
            None => None,
            Some((v, n)) => Some(((bytes[pos] % 128) + 128 * v, n + 1)),
        }
    }
}

/// An unsigned LEB128 number at `pos`, cut to 64 bits.
pub open spec fn spec_uleb128(bytes: Seq<u8>, pos: int) -> Result<(u64, int), WasmError> {
    match spec_leb_groups(bytes, pos, 0) {
        None => Err(WasmError::UnexpectedEof),
        Some((v, n)) => Ok(((v % 0x1_0000_0000_0000_0000) as u64, pos + n)),
    }
}

/// `spec_uleb128` as a reader of elements.
pub open spec fn uleb128_reader() -> spec_fn(Seq<u8>, int) -> Result<(u64, int), WasmError> {
    |bytes: Seq<u8>, pos: int| spec_uleb128(bytes, pos)
}

/// The signed reading of `n` groups of value `v` whose last byte is `last`:
/// sign-extended from bit 6 of the last group where fewer than 64 bits were
/// read, else the low 64 bits in two's complement.
pub open spec fn spec_signed(v: int, n: nat, last: u8) -> int {
    if n < 10 && last % 128 >= 64 {
        v - pow128(n)
    } else {
        let u = v % 0x1_0000_0000_0000_0000;
        if u >= 0x8000_0000_0000_0000 {
            u - 0x1_0000_0000_0000_0000
        } else {
            u
        }
    }
}

/// A signed LEB128 number at `pos`.
pub open spec fn spec_sleb128(bytes: Seq<u8>, pos: int) -> Result<(i64, int), WasmError> {
    match spec_leb_groups(bytes, pos, 0) {
        None => Err(WasmError::UnexpectedEof),
        Some((v, n)) => Ok((spec_signed(v, n, bytes[pos + n - 1]) as i64, pos + n)),
    }
}

/// `n` bytes at `pos`.
pub open spec fn spec_bytes(bytes: Seq<u8>, pos: int, n: nat) -> Result<(Seq<u8>, int), WasmError> {
    if 0 <= pos && pos + n <= bytes.len() {
        Ok((bytes.subrange(pos, pos + n), pos + n))
    } else {
        Err(WasmError::UnexpectedEof)
    }
}

/// `n` values in a row, each read by `elem` where the one before ended.
pub open spec fn spec_repeat<E>(
    bytes: Seq<u8>,
    pos: int,
    n: nat,
    elem: spec_fn(Seq<u8>, int) -> Result<(E, int), WasmError>,
) -> Result<(Seq<E>, int), WasmError>
    decreases n,
{
    if n == 0 {
        Ok((Seq::empty(), pos))
    } else {
        match elem(bytes, pos) {
            Err(e) => Err(e),
            Ok((first, next)) => match spec_repeat(bytes, next, (n - 1) as nat, elem) {
                Err(e) => Err(e),
                Ok((rest, end)) => Ok((seq![first] + rest, end)),
            },
        }
    }
}

/// The values read so far, followed by what `rest` reads.
pub open spec fn spec_after<E>(
    done: Seq<E>,
    rest: Result<(Seq<E>, int), WasmError>,
) -> Result<(Seq<E>, int), WasmError> {
    match rest {
        Err(e) => Err(e),
        Ok((more, end)) => Ok((done + more, end)),
    }
}

/// Values in a row behind those read so far are one value behind them,
/// and then the rest in a row behind that one more.
pub proof fn lemma_repeat_step<E>(
    bytes: Seq<u8>,
    pos: int,
    n: nat,
    elem: spec_fn(Seq<u8>, int) -> Result<(E, int), WasmError>,
    done: Seq<E>,
)
    requires
        n > 0,
    ensures
        spec_after(done, spec_repeat(bytes, pos, n, elem)) == match elem(bytes, pos) {
            Err(e) => Err(e),
            Ok((first, next)) => spec_after(
                done.push(first),
                spec_repeat(bytes, next, (n - 1) as nat, elem),
            ),
        },
{
    match elem(bytes, pos) {
        Err(e) => {},
        Ok((first, next)) => {
            match spec_repeat(bytes, next, (n - 1) as nat, elem) {
                Err(e) => {},
                Ok((rest, end)) => {
                    assert(done + (seq![first] + rest) =~= done.push(first) + rest);
                },
            }
        },
    }
}

/// No values in a row behind those read so far are those read so far.
pub proof fn lemma_repeat_done<E>(
    bytes: Seq<u8>,
    pos: int,
    elem: spec_fn(Seq<u8>, int) -> Result<(E, int), WasmError>,
    done: Seq<E>,
)
    ensures
        spec_after(done, spec_repeat(bytes, pos, 0, elem)) == Ok::<_, WasmError>((done, pos)),
{
    assert(done + Seq::<E>::empty() =~= done);
}

/// The index that an unsigned number stands for: its low 32 bits.
pub open spec fn spec_index(v: u64) -> u32 {
    (v % 0x1_0000_0000) as u32
}

/// One immediate of tag `t` at `pos`: the segment kept for it, if any.
/// An opaque byte is read and not kept.
pub open spec fn spec_immediate(bytes: Seq<u8>, pos: int, t: Prim) -> Result<
    (Seq<SegModel>, int),
    WasmError,
> {
    match t {
        Prim::F32 => match spec_u32(bytes, pos) {
            Ok((v, p)) => Ok((seq![SegModel::Float32(v)], p)),
            Err(e) => Err(e),
        },
        Prim::F64 => match spec_u64(bytes, pos) {
            Ok((v, p)) => Ok((seq![SegModel::Float64(v)], p)),
            Err(e) => Err(e),
        },
        Prim::Local => match spec_uleb128(bytes, pos) {
            Ok((v, p)) => Ok((seq![SegModel::Local(spec_index(v))], p)),
            Err(e) => Err(e),
        },
        Prim::Global => match spec_uleb128(bytes, pos) {
            Ok((v, p)) => Ok((seq![SegModel::Global(spec_index(v))], p)),
            Err(e) => Err(e),
        },
        Prim::Func => match spec_uleb128(bytes, pos) {
            Ok((v, p)) => Ok((seq![SegModel::Func(spec_index(v))], p)),
            Err(e) => Err(e),
        },
        Prim::Void => match spec_u8(bytes, pos) {
            Ok((v, p)) => Ok((Seq::empty(), p)),
            Err(e) => Err(e),
        },
        _ => match spec_sleb128(bytes, pos) {
            Ok((v, p)) => Ok((seq![SegModel::Int(v)], p)),
            Err(e) => Err(e),
        },
    }
}

/// The immediates of tags `types[from..]` in a row.
pub open spec fn spec_immediates(bytes: Seq<u8>, pos: int, types: Seq<Prim>, from: int) -> Result<
    (Seq<SegModel>, int),
    WasmError,
>
    decreases types.len() - from,
{
    if from < 0 || from >= types.len() {
        Ok((Seq::empty(), pos))
    } else {
        match spec_immediate(bytes, pos, types[from]) {
            Err(e) => Err(e),
            Ok((kept, next)) => match spec_immediates(bytes, next, types, from + 1) {
                Err(e) => Err(e),
                Ok((rest, end)) => Ok((kept + rest, end)),
            },
        }
    }
}

/// The immediate of `br_table`: a count, that many target depths, and the
/// default.
pub open spec fn spec_br_table(bytes: Seq<u8>, pos: int) -> Result<(SegModel, int), WasmError> {
    match spec_uleb128(bytes, pos) {
        Err(e) => Err(e),
        Ok((n, p)) => match spec_repeat(bytes, p, n as nat, uleb128_reader()) {
            Err(e) => Err(e),
            Ok((targets, q)) => match spec_uleb128(bytes, q) {
                Err(e) => Err(e),
                Ok((default, r)) => Ok(
                    (
                        SegModel::BrTable(
                            targets.map_values(|v: u64| spec_index(v)),
                            spec_index(default),
                        ),
                        r,
                    ),
                ),
            },
        },
    }
}

/// What follows the opcode of `info` at `pos`: the segments kept for its
/// immediates. `br_table` and `call_indirect` have layouts of their own; any
/// other opcode must be assigned, may take an alignment byte, which is
/// dropped, and then has the immediates that its descriptor lists.
pub open spec fn spec_operands(bytes: Seq<u8>, pos: int, info: InstrModel) -> Result<
    (Seq<SegModel>, int),
    WasmError,
> {
    match spec_edge_case(info.instr) {
        SpecialInstr::BrTable => match spec_br_table(bytes, pos) {
            Err(e) => Err(e),
            Ok((table, p)) => Ok((seq![table], p)),
        },
        SpecialInstr::CallIndirect => match spec_sleb128(bytes, pos) {
            Err(e) => Err(e),
            Ok((type_index, p)) => match spec_sleb128(bytes, p) {
                Err(e) => Err(e),
                Ok((table_index, q)) => Ok(
                    (seq![SegModel::Int(type_index), SegModel::Int(table_index)], q),
                ),
            },
        },
        _ => if info.name.len() == 0 {
            Err(WasmError::UnknownOpcode(info.instr))
        } else if info.takes_align {
            match spec_u8(bytes, pos) {
                Err(e) => Err(e),
                Ok((align, p)) => spec_immediates(bytes, p, info.constants, 0),
            }
        } else {
            spec_immediates(bytes, pos, info.constants, 0)
        },
    }
}

/// The descriptor of `end`.
pub open spec fn spec_end() -> InstrModel {
    spec_instr(0x0b)
}

/// The groups of a number are one at least, and they lie within the
/// bytes.
pub proof fn lemma_leb_groups_advance(bytes: Seq<u8>, pos: int, before: nat)
    ensures
        match spec_leb_groups(bytes, pos, before) {
            Some((v, n)) => n >= 1 && pos + n <= bytes.len() && 0 <= pos,
            None => true,
        },
    decreases 10 - before,
{
    if pos < 0 || pos >= bytes.len() {
    } else if bytes[pos] < 128 || before >= 9 {
    } else {
        lemma_leb_groups_advance(bytes, pos + 1, before + 1);
    }
}

/// Values in a row end where they start or later, if each of them does.
pub proof fn lemma_repeat_advance<E>(
    bytes: Seq<u8>,
    pos: int,
    n: nat,
    elem: spec_fn(Seq<u8>, int) -> Result<(E, int), WasmError>,
)
    requires
        forall|p: int| (#[trigger] elem(bytes, p)) matches Ok((v, q)) ==> p <= q,
    ensures
        spec_repeat(bytes, pos, n, elem) matches Ok((v, q)) ==> pos <= q,
    decreases n,
{
    if n > 0 {
        match elem(bytes, pos) {
            Err(e) => {},
            Ok((first, next)) => {
                lemma_repeat_advance(bytes, next, (n - 1) as nat, elem);
            },
        }
    }
}

/// Immediates in a row end where they start or later.
pub proof fn lemma_immediates_advance(bytes: Seq<u8>, pos: int, types: Seq<Prim>, from: int)
    ensures
        spec_immediates(bytes, pos, types, from) matches Ok((v, q)) ==> pos <= q,
    decreases types.len() - from,
{
    if from < 0 || from >= types.len() {
    } else {
        lemma_leb_groups_advance(bytes, pos, 0);
        match spec_immediate(bytes, pos, types[from]) {
            Err(e) => {},
            Ok((kept, next)) => {
                lemma_immediates_advance(bytes, next, types, from + 1);
            },
        }
    }
}

/// What follows an opcode ends where it starts or later.
pub proof fn lemma_operands_advance(bytes: Seq<u8>, pos: int, info: InstrModel)
    ensures
        spec_operands(bytes, pos, info) matches Ok((v, q)) ==> pos <= q,
{
    lemma_leb_groups_advance(bytes, pos, 0);
    match spec_edge_case(info.instr) {
        SpecialInstr::BrTable => {
            match spec_uleb128(bytes, pos) {
                Err(e) => {},
                Ok((n, p)) => {
                    assert forall|s: int| (#[trigger] uleb128_reader()(bytes, s)) matches Ok(
                        (v, q),
                    ) ==> s <= q by {
                        lemma_leb_groups_advance(bytes, s, 0);
                    }
                    lemma_repeat_advance(bytes, p, n as nat, uleb128_reader());
                    match spec_repeat(bytes, p, n as nat, uleb128_reader()) {
                        Err(e) => {},
                        Ok((targets, q)) => {
                            lemma_leb_groups_advance(bytes, q, 0);
                        },
                    }
                },
            }
        },
        SpecialInstr::CallIndirect => {
            match spec_sleb128(bytes, pos) {
                Err(e) => {},
                Ok((a, p)) => {
                    lemma_leb_groups_advance(bytes, p, 0);
                },
            }
        },
        _ => {
            lemma_immediates_advance(bytes, pos, info.constants, 0);
            lemma_immediates_advance(bytes, pos + 1, info.constants, 0);
        },
    }
}

/// The expression at `pos`: its segments up to and with the `end` that
/// closes it, and the position after that `end`. A block is one
/// `ControlFlow` segment, whose body is the expression that follows the
/// opener; `else` is an instruction like any other.
pub open spec fn spec_expr(bytes: Seq<u8>, pos: int) -> Result<(Seq<SegModel>, int), WasmError>
    decreases
            (if pos < bytes.len() {
                bytes.len() - pos
            } else {
                0
            }),
{
    if pos < 0 || pos >= bytes.len() {
        Err(WasmError::UnexpectedEof)
    } else {
        let info = spec_instr(bytes[pos]);
        match spec_operands(bytes, pos + 1, info) {
            Err(e) => Err(e),
            Ok((operands, p)) => {
                proof {
                    lemma_operands_advance(bytes, pos + 1, info);
                }
                match spec_edge_case(info.instr) {
                    SpecialInstr::EndBlock => Ok((seq![SegModel::Operation(info)], p)),
                    SpecialInstr::BeginBlock => match spec_expr(bytes, p) {
                        Err(e) => Err(e),
                        Ok((body, q)) => if q <= p {
                            // never so: a body holds at least its `end`
                            Err(WasmError::UnexpectedEof)
                        } else {
                            match spec_expr(bytes, q) {
                                Err(e) => Err(e),
                                Ok((rest, r)) => Ok(
                                    (
                                        seq![SegModel::ControlFlow(info, body, spec_end())] + rest,
                                        r,
                                    ),
                                ),
                            }
                        },
                    },
                    _ => match spec_expr(bytes, p) {
                        Err(e) => Err(e),
                        Ok((rest, r)) => Ok(
                            (
                                seq![SegModel::Instr(seq![SegModel::Operation(info)] + operands)]
                                    + rest,
                                r,
                            ),
                        ),
                    },
                }
            },
        }
    }
}

/// An expression ends after the position at which it starts.
pub proof fn lemma_expr_advance(bytes: Seq<u8>, pos: int)
    ensures
        spec_expr(bytes, pos) matches Ok((v, q)) ==> pos < q,
    decreases
            (if pos < bytes.len() {
                bytes.len() - pos
            } else {
                0
            }),
{
    if pos < 0 || pos >= bytes.len() {
    } else {
        let info = spec_instr(bytes[pos]);
        lemma_operands_advance(bytes, pos + 1, info);
        match spec_operands(bytes, pos + 1, info) {
            Err(e) => {},
            Ok((operands, p)) => {
                match spec_edge_case(info.instr) {
                    SpecialInstr::EndBlock => {},
                    SpecialInstr::BeginBlock => {
                        lemma_expr_advance(bytes, p);
                        match spec_expr(bytes, p) {
                            Err(e) => {},
                            Ok((body, q)) => {
                                lemma_expr_advance(bytes, q);
                            },
                        }
                    },
                    _ => {
                        lemma_expr_advance(bytes, p);
                    },
                }
            },
        }
    }
}

/// What the builder hands back when it reads on at `pos` with the blocks
/// of `openers` still open: `outers` are the expressions that enclose them,
/// innermost last, and `cur` is the one in progress.
pub open spec fn spec_resume(
    outers: Seq<Seq<SegModel>>,
    openers: Seq<InstrModel>,
    cur: Seq<SegModel>,
    bytes: Seq<u8>,
    pos: int,
) -> Result<(Seq<SegModel>, int), WasmError>
    decreases outers.len(),
{
    match spec_expr(bytes, pos) {
        Err(e) => Err(e),
        Ok((segs, p)) => if outers.len() == 0 {
            Ok((cur + segs, p))
        } else {
            spec_resume(
                outers.drop_last(),
                openers.drop_last(),
                outers.last().push(SegModel::ControlFlow(openers.last(), cur + segs, spec_end())),
                bytes,
                p,
            )
        },
    }
}

proof fn lemma_resume_same(
    outers: Seq<Seq<SegModel>>,
    openers: Seq<InstrModel>,
    cur: Seq<SegModel>,
    bytes: Seq<u8>,
    pos: int,
    cur2: Seq<SegModel>,
    pos2: int,
)
    requires
        match spec_expr(bytes, pos) {
            Err(e) => spec_expr(bytes, pos2) == Err::<(Seq<SegModel>, int), _>(e),
            Ok((segs, p)) => spec_expr(bytes, pos2) matches Ok((segs2, at2)) && at2 == p && cur
                + segs == cur2 + segs2,
        },
    ensures
        spec_resume(outers, openers, cur, bytes, pos) == spec_resume(
            outers,
            openers,
            cur2,
            bytes,
            pos2,
        ),
{
}

proof fn lemma_resume_instr(
    outers: Seq<Seq<SegModel>>,
    openers: Seq<InstrModel>,
    cur: Seq<SegModel>,
    bytes: Seq<u8>,
    pos: int,
)
    requires
        0 <= pos < bytes.len(),
        spec_edge_case(bytes[pos]) != SpecialInstr::BeginBlock,
        spec_edge_case(bytes[pos]) != SpecialInstr::EndBlock,
    ensures
        match spec_operands(bytes, pos + 1, spec_instr(bytes[pos])) {
            Err(e) => spec_resume(outers, openers, cur, bytes, pos) == Err::<
                (Seq<SegModel>, int),
                _,
            >(e),
            Ok((operands, p)) => spec_resume(outers, openers, cur, bytes, pos) == spec_resume(
                outers,
                openers,
                cur.push(
                    SegModel::Instr(seq![SegModel::Operation(spec_instr(bytes[pos]))] + operands),
                ),
                bytes,
                p,
            ),
        },
{
    let info = spec_instr(bytes[pos]);
    lemma_unassigned_is_empty(bytes[pos]);
    match spec_operands(bytes, pos + 1, info) {
        Err(e) => {},
        Ok((operands, p)) => {
            let seg = SegModel::Instr(seq![SegModel::Operation(info)] + operands);
            match spec_expr(bytes, p) {
                Err(e) => {},
                Ok((rest, r)) => {
                    assert(cur + (seq![seg] + rest) =~= cur.push(seg) + rest);
                },
            }
            lemma_resume_same(outers, openers, cur, bytes, pos, cur.push(seg), p);
        },
    }
}

proof fn lemma_resume_begin(
    outers: Seq<Seq<SegModel>>,
    openers: Seq<InstrModel>,
    cur: Seq<SegModel>,
    bytes: Seq<u8>,
    pos: int,
)
    requires
        0 <= pos < bytes.len(),
        spec_edge_case(bytes[pos]) == SpecialInstr::BeginBlock,
        outers.len() == openers.len(),
    ensures
        match spec_operands(bytes, pos + 1, spec_instr(bytes[pos])) {
            Err(e) => spec_resume(outers, openers, cur, bytes, pos) == Err::<
                (Seq<SegModel>, int),
                _,
            >(e),
            Ok((operands, p)) => spec_resume(outers, openers, cur, bytes, pos) == spec_resume(
                outers.push(cur),
                openers.push(spec_instr(bytes[pos])),
                Seq::empty(),
                bytes,
                p,
            ),
        },
{
    let info = spec_instr(bytes[pos]);
    lemma_unassigned_is_empty(bytes[pos]);
    match spec_operands(bytes, pos + 1, info) {
        Err(e) => {},
        Ok((operands, p)) => {
            assert(outers.push(cur).drop_last() =~= outers);
            assert(openers.push(info).drop_last() =~= openers);
            match spec_expr(bytes, p) {
                Err(e) => {},
                Ok((body, q)) => {
                    lemma_expr_advance(bytes, p);
                    assert(Seq::<SegModel>::empty() + body =~= body);
                    let seg = SegModel::ControlFlow(info, body, spec_end());
                    match spec_expr(bytes, q) {
                        Err(e) => {},
                        Ok((rest, r)) => {
                            assert(cur + (seq![seg] + rest) =~= cur.push(seg) + rest);
                        },
                    }
                    lemma_resume_same(outers, openers, cur, bytes, pos, cur.push(seg), q);
                },
            }
        },
    }
}

proof fn lemma_resume_end(
    outers: Seq<Seq<SegModel>>,
    openers: Seq<InstrModel>,
    cur: Seq<SegModel>,
    bytes: Seq<u8>,
    pos: int,
)
    requires
        0 <= pos < bytes.len(),
        spec_edge_case(bytes[pos]) == SpecialInstr::EndBlock,
    ensures
        spec_instr(bytes[pos]) == spec_end(),
        spec_operands(bytes, pos + 1, spec_end()) == Ok::<_, WasmError>(
            (Seq::<SegModel>::empty(), pos + 1),
        ),
        spec_resume(outers, openers, cur, bytes, pos) == if outers.len() == 0 {
            Ok::<_, WasmError>((cur.push(SegModel::Operation(spec_end())), pos + 1))
        } else {
            spec_resume(
                outers.drop_last(),
                openers.drop_last(),
                outers.last().push(
                    SegModel::ControlFlow(
                        openers.last(),
                        cur.push(SegModel::Operation(spec_end())),
                        spec_end(),
                    ),
                ),
                bytes,
                pos + 1,
            )
        },
{
    reveal_strlit("end");
    assert(spec_immediates(bytes, pos + 1, spec_end().constants, 0) == Ok::<_, WasmError>(
        (Seq::<SegModel>::empty(), pos + 1),
    ));
    assert(cur + seq![SegModel::Operation(spec_end())] =~= cur.push(
        SegModel::Operation(spec_end()),
    ));
}

/// A LEB128 number ends after the position at which it starts, and within
/// the bytes.
pub broadcast proof fn lemma_uleb128_advance(bytes: Seq<u8>, pos: int)
    ensures
        (#[trigger] spec_uleb128(bytes, pos)) matches Ok((v, q)) ==> 0 <= pos < q <= bytes.len(),
{
    lemma_leb_groups_advance(bytes, pos, 0);
}

/// An expression ends after the position at which it starts.
pub broadcast proof fn lemma_expr_end(bytes: Seq<u8>, pos: int)
    ensures
        (#[trigger] spec_expr(bytes, pos)) matches Ok((v, q)) ==> pos < q,
{
    lemma_expr_advance(bytes, pos);
}

/// The views of the expressions on the builder's stack.
pub open spec fn scope_view(scope: Seq<WasmExpr>) -> Seq<Seq<SegModel>> {
    Seq::new(scope.len(), |i: int| scope[i]@)
}

/// The views of the openers on the builder's stack.
pub open spec fn openers_view(openers: Seq<InstrInfo>) -> Seq<InstrModel> {
    Seq::new(openers.len(), |i: int| openers[i]@)
}

/// The index that an unsigned number stands for.
pub fn index_of(v: u64) -> (r: u32)
    ensures
        r == spec_index(v),
{
    (v % 0x1_0000_0000) as u32
}

/// A reader over the bytes of a module: a position, and a mark from which the
/// bytes read are kept while capture is on.
pub struct WasmDeserializeState<'a> {
    buffer: &'a [u8],
    pos: usize,
    raw_start: usize,
    save_read: bool,
}

impl<'a> WasmDeserializeState<'a> {
    /// The bytes that the reader reads from.
    pub closed spec fn bytes(&self) -> Seq<u8> {
        self.buffer@
    }

    /// How many bytes have been read.
    pub closed spec fn position(&self) -> int {
        self.pos as int
    }

    /// Whether the bytes read are being kept.
    pub closed spec fn capturing(&self) -> bool {
        self.save_read
    }

    /// The position at which capture was switched on.
    pub closed spec fn capture_start(&self) -> int {
        self.raw_start as int
    }

    /// The position lies within the bytes, and the mark not after it.
    pub open spec fn wf(&self) -> bool {
        &&& 0 <= self.position() <= self.bytes().len()
        &&& self.capturing() ==> 0 <= self.capture_start() <= self.position()
    }

    /// The bytes read since capture was switched on.
    pub open spec fn captured(&self) -> Seq<u8> {
        if self.capturing() {
            self.bytes().subrange(self.capture_start(), self.position())
        } else {
            Seq::empty()
        }
    }

    /// This reader is `prev` after some reads: the same bytes and the same
    /// mark, at a position not before.
    pub open spec fn follows(&self, prev: &Self) -> bool {
        &&& self.wf()
        &&& self.bytes() == prev.bytes()
        &&& self.capturing() == prev.capturing()
        &&& self.capture_start() == prev.capture_start()
        &&& prev.position() <= self.position()
    }

    /// This reader is `prev` after some reads, whatever became of the mark.
    pub open spec fn continues(&self, prev: &Self) -> bool {
        &&& self.wf()
        &&& self.bytes() == prev.bytes()
        &&& prev.position() <= self.position()
    }

    /// A reader at the start of `buffer`, with capture off.
    pub fn new(buffer: &'a [u8]) -> (r: Self)
        ensures
            r.wf(),
            r.bytes() == buffer@,
            r.position() == 0,
            !r.capturing(),
    {
        WasmDeserializeState { buffer, pos: 0, raw_start: 0, save_read: false }
    }

    /// Switches capture on, from the current position.
    pub fn start_raw_section(&mut self)
        requires
            old(self).wf(),
        ensures
            final(self).wf(),
            final(self).bytes() == old(self).bytes(),
            final(self).position() == old(self).position(),
            final(self).capturing(),
            final(self).capture_start() == old(self).position(),
    {
        self.raw_start = self.pos;
        self.save_read = true;
    }

    /// Switches capture off and hands out the bytes read while it was on.
    pub fn end_raw_section(&mut self) -> (r: Vec<u8>)
        requires
            old(self).wf(),
        ensures
            final(self).wf(),
            final(self).bytes() == old(self).bytes(),
            final(self).position() == old(self).position(),
            !final(self).capturing(),
            r@ == old(self).captured(),
    {
        let mut out: Vec<u8> = Vec::new();
        if self.save_read {
            let mut i: usize = self.raw_start;
            while i < self.pos
                invariant
                    self.raw_start <= i <= self.pos <= self.buffer@.len(),
                    out@ == self.buffer@.subrange(self.raw_start as int, i as int),
                decreases self.pos - i,
            {
                out.push(self.buffer[i]);
                assert(self.buffer@.subrange(self.raw_start as int, i as int).push(
                    self.buffer@[i as int],
                ) =~= self.buffer@.subrange(self.raw_start as int, i + 1));
                i = i + 1;
            }
        }
        self.save_read = false;
        out
    }

    /// Reads one byte.
    pub fn read_u8(&mut self) -> (r: Result<u8, WasmError>)
        requires
            old(self).wf(),
        ensures
            final(self).follows(old(self)),
            match r {
                Ok(v) => spec_u8(old(self).bytes(), old(self).position()) == Ok::<_, WasmError>(
                    (v, final(self).position()),
                ),
                Err(e) => spec_u8(old(self).bytes(), old(self).position()) == Err::<(u8, int), _>(
                    e,
                ),
            },
    {
        if self.pos < self.buffer.len() {
            let b = self.buffer[self.pos];
            self.pos = self.pos + 1;
            Ok(b)
        } else {
            Err(WasmError::UnexpectedEof)
        }
    }

    /// Reads four bytes as a number, least significant byte first.
    pub fn read_u32(&mut self) -> (r: Result<u32, WasmError>)
        requires
            old(self).wf(),
        ensures
            final(self).follows(old(self)),
            match r {
                Ok(v) => spec_u32(old(self).bytes(), old(self).position()) == Ok::<_, WasmError>(
                    (v, final(self).position()),
                ),
                Err(e) => spec_u32(old(self).bytes(), old(self).position()) == Err::<
                    (u32, int),
                    _,
                >(e),
            },
    {
        if self.buffer.len() - self.pos < 4 {
            return Err(WasmError::UnexpectedEof);
        }
        let b0 = self.buffer[self.pos] as u32;
        let b1 = self.buffer[self.pos + 1] as u32;
        let b2 = self.buffer[self.pos + 2] as u32;
        let b3 = self.buffer[self.pos + 3] as u32;
        self.pos = self.pos + 4;
        Ok(b0 + 0x100 * b1 + 0x1_0000 * b2 + 0x100_0000 * b3)
    }

    /// Reads eight bytes as a number, least significant byte first.
    pub fn read_u64(&mut self) -> (r: Result<u64, WasmError>)
        requires
            old(self).wf(),
        ensures
            final(self).follows(old(self)),
            match r {
                Ok(v) => spec_u64(old(self).bytes(), old(self).position()) == Ok::<_, WasmError>(
                    (v, final(self).position()),
                ),
                Err(e) => spec_u64(old(self).bytes(), old(self).position()) == Err::<
                    (u64, int),
                    _,
                >(e),
            },
    {
        if self.buffer.len() - self.pos < 8 {
            return Err(WasmError::UnexpectedEof);
        }
        let low = self.read_u32()?;
        let high = self.read_u32()?;
        Ok(low as u64 + 0x1_0000_0000 * (high as u64))
    }

    /// Reads the groups of a LEB128 number of which `before` were read:
    /// their value, 128 to the power of their count, and the last byte.
    fn read_leb_groups(&mut self, before: u8) -> (r: Result<(u128, u128, u8), WasmError>)
        requires
            old(self).wf(),
            before <= 9,
        ensures
            final(self).follows(old(self)),
            match r {
                Ok((value, width, last)) => {
                    let n = final(self).position() - old(self).position();
                    &&& 1 <= n <= 10 - before
                    &&& spec_leb_groups(old(self).bytes(), old(self).position(), before as nat)
                        == Some((value as int, n as nat))
                    &&& width == pow128(n as nat)
                    &&& value < width
                    &&& last == old(self).bytes()[final(self).position() - 1]
                },
                Err(e) => e == WasmError::UnexpectedEof && spec_leb_groups(
                    old(self).bytes(),
                    old(self).position(),
                    before as nat,
                ) is None,
            },
        decreases 9 - before,
    {
        if self.pos >= self.buffer.len() {
            return Err(WasmError::UnexpectedEof);
        }
        let b = self.buffer[self.pos];
        self.pos = self.pos + 1;
        let payload = (b % 128) as u128;
        if b < 128 || before >= 9 {
            proof {
                reveal_with_fuel(pow128, 2);
            }
            Ok((payload, 128, b))
        } else {
            match self.read_leb_groups(before + 1) {
                Err(e) => Err(e),
                Ok((value, width, last)) => {
                    proof {
                        lemma_pow128_bounds((self.pos - old(self).pos - 1) as nat);
                    }
                    Ok((payload + 128 * value, 128 * width, last))
                },
            }
        }
    }

    /// Reads an unsigned LEB128 number into 64 bits. At most ten bytes are
    /// read; bits beyond the 64th are dropped.
    pub fn read_dynamic_uint(&mut self) -> (r: Result<u64, WasmError>)
        requires
            old(self).wf(),
        ensures
            final(self).follows(old(self)),
            match r {
                Ok(v) => spec_uleb128(old(self).bytes(), old(self).position()) == Ok::<
                    _,
                    WasmError,
                >((v, final(self).position())),
                Err(e) => spec_uleb128(old(self).bytes(), old(self).position()) == Err::<
                    (u64, int),
                    _,
                >(e),
            },
    {
        match self.read_leb_groups(0) {
            Err(e) => Err(e),
            Ok((value, _, _)) => Ok((value % 0x1_0000_0000_0000_0000) as u64),
        }
    }

    /// Reads a signed LEB128 number into 64 bits. At most ten bytes are read.
    pub fn read_dynamic_int(&mut self) -> (r: Result<i64, WasmError>)
        requires
            old(self).wf(),
        ensures
            final(self).follows(old(self)),
            match r {
                Ok(v) => spec_sleb128(old(self).bytes(), old(self).position()) == Ok::<
                    _,
                    WasmError,
                >((v, final(self).position())),
                Err(e) => spec_sleb128(old(self).bytes(), old(self).position()) == Err::<
                    (i64, int),
                    _,
                >(e),
            },
    {
        match self.read_leb_groups(0) {
            Err(e) => Err(e),
            Ok((value, width, last)) => {
                proof {
                    lemma_pow128_bounds((self.pos - old(self).pos) as nat);
                }
                if last % 128 >= 64 && width <= 0x8000_0000_0000_0000 {
                    Ok((value as i128 - width as i128) as i64)
                } else {
                    let low = value % 0x1_0000_0000_0000_0000;
                    if low >= 0x8000_0000_0000_0000 {
                        Ok((low as i128 - 0x1_0000_0000_0000_0000) as i64)
                    } else {
                        Ok(low as i64)
                    }
                }
            },
        }
    }

    /// Reads `num_elements` bytes.
    pub fn read_vector(&mut self, num_elements: u64) -> (r: Result<Vec<u8>, WasmError>)
        requires
            old(self).wf(),
        ensures
            final(self).follows(old(self)),
            match r {
                Ok(v) => spec_bytes(old(self).bytes(), old(self).position(), num_elements as nat)
                    == Ok::<_, WasmError>((v@, final(self).position())),
                Err(e) => spec_bytes(old(self).bytes(), old(self).position(), num_elements as nat)
                    == Err::<(Seq<u8>, int), _>(e),
            },
    {
        if ((self.buffer.len() - self.pos) as u64) < num_elements {
            return Err(WasmError::UnexpectedEof);
        }
        let start = self.pos;
        let end = self.pos + num_elements as usize;
        let mut out: Vec<u8> = Vec::new();
        while self.pos < end
            invariant
                start <= self.pos <= end <= self.buffer@.len(),
                self.buffer == old(self).buffer,
                self.raw_start == old(self).raw_start,
                self.save_read == old(self).save_read,
                out@ == self.buffer@.subrange(start as int, self.pos as int),
            decreases end - self.pos,
        {
            out.push(self.buffer[self.pos]);
            assert(self.buffer@.subrange(start as int, self.pos as int).push(
                self.buffer@[self.pos as int],
            ) =~= self.buffer@.subrange(start as int, self.pos + 1));
            self.pos = self.pos + 1;
        }
        Ok(out)
    }

    /// Reads `num_elements` unsigned LEB128 numbers.
    pub fn read_vector_dynamic(&mut self, num_elements: u64) -> (r: Result<Vec<u64>, WasmError>)
        requires
            old(self).wf(),
        ensures
            final(self).follows(old(self)),
            match r {
                Ok(v) => spec_repeat(
                    old(self).bytes(),
                    old(self).position(),
                    num_elements as nat,
                    uleb128_reader(),
                ) == Ok::<_, WasmError>((v@, final(self).position())),
                Err(e) => spec_repeat(
                    old(self).bytes(),
                    old(self).position(),
                    num_elements as nat,
                    uleb128_reader(),
                ) == Err::<(Seq<u64>, int), _>(e),
            },
    {
        let ghost elem = uleb128_reader();
        let ghost whole = spec_repeat(
            self.bytes(),
            self.position(),
            num_elements as nat,
            elem,
        );
        let mut out: Vec<u64> = Vec::new();
        let mut i: u64 = 0;
        proof {
            assert(Seq::<u64>::empty() + whole->Ok_0.0 =~= whole->Ok_0.0);
        }
        while i < num_elements
            invariant
                i <= num_elements,
                self.follows(old(self)),
                elem == uleb128_reader(),
                whole == spec_repeat(
                    old(self).bytes(),
                    old(self).position(),
                    num_elements as nat,
                    elem,
                ),
                whole == spec_after(
                    out@,
                    spec_repeat(self.bytes(), self.position(), (num_elements - i) as nat, elem),
                ),
            decreases num_elements - i,
        {
            proof {
                lemma_repeat_step(
                    self.bytes(),
                    self.position(),
                    (num_elements - i) as nat,
                    elem,
                    out@,
                );
            }
            match self.read_dynamic_uint() {
                Err(e) => {
                    return Err(e);
                },
                Ok(v) => {
                    out.push(v);
                },
            }
            i = i + 1;
        }
        proof {
            lemma_repeat_done(self.bytes(), self.position(), elem, out@);
        }
        Ok(out)
    }

    /// Reads one immediate of tag `t` and appends what is kept of it.
    fn read_immediate(&mut self, t: Prim, kept: &mut Vec<ExprSeg>) -> (r: Result<(), WasmError>)
        requires
            old(self).wf(),
        ensures
            final(self).follows(old(self)),
            match r {
                Ok(_) => spec_immediate(old(self).bytes(), old(self).position(), t) matches Ok(
                    (segs, p),
                ) && p == final(self).position() && segs_view(final(kept)@) == segs_view(
                    old(kept)@,
                ) + segs,
                Err(e) => spec_immediate(old(self).bytes(), old(self).position(), t) == Err::<
                    (Seq<SegModel>, int),
                    _,
                >(e),
            },
    {
        let seg = match t {
            Prim::F32 => ExprSeg::Float32(self.read_u32()?),
            Prim::F64 => ExprSeg::Float64(self.read_u64()?),
            Prim::Local => ExprSeg::Local(index_of(self.read_dynamic_uint()?)),
            Prim::Global => ExprSeg::Global(index_of(self.read_dynamic_uint()?)),
            Prim::Func => ExprSeg::Func(index_of(self.read_dynamic_uint()?)),
            Prim::Void => {
                let _opaque = self.read_u8()?;
                assert(segs_view(kept@) + Seq::<SegModel>::empty() =~= segs_view(kept@));
                return Ok(());
            },
            _ => ExprSeg::Int(self.read_dynamic_int()?),
        };
        proof {
            lemma_segs_view_push(kept@, seg);
            assert(segs_view(kept@) + seq![seg@] =~= segs_view(kept@).push(seg@));
        }
        kept.push(seg);
        Ok(())
    }

    /// Reads the immediate of `br_table`.
    fn read_br_table(&mut self) -> (r: Result<ExprSeg, WasmError>)
        requires
            old(self).wf(),
        ensures
            final(self).follows(old(self)),
            match r {
                Ok(seg) => spec_br_table(old(self).bytes(), old(self).position()) == Ok::<
                    _,
                    WasmError,
                >((seg@, final(self).position())),
                Err(e) => spec_br_table(old(self).bytes(), old(self).position()) == Err::<
                    (SegModel, int),
                    _,
                >(e),
            },
    {
        let num = self.read_dynamic_uint()?;
        let raw = self.read_vector_dynamic(num)?;
        let default = self.read_dynamic_uint()?;
        let mut break_depths: Vec<u32> = Vec::new();
        let mut i: usize = 0;
        while i < raw.len()
            invariant
                i <= raw@.len(),
                break_depths@ == raw@.take(i as int).map_values(|v: u64| spec_index(v)),
            decreases raw@.len() - i,
        {
            break_depths.push(index_of(raw[i]));
            assert(raw@.take(i + 1).map_values(|v: u64| spec_index(v)) =~= raw@.take(
                i as int,
            ).map_values(|v: u64| spec_index(v)).push(spec_index(raw@[i as int])));
            i = i + 1;
        }
        assert(raw@.take(i as int) =~= raw@);
        Ok(ExprSeg::BrTable(BrTableConst { break_depths, default: index_of(default) }))
    }

    /// Reads what follows the opcode of `info`.
    fn read_operands(&mut self, info: InstrInfo) -> (r: Result<Vec<ExprSeg>, WasmError>)
        requires
            old(self).wf(),
        ensures
            final(self).follows(old(self)),
            match r {
                Ok(segs) => spec_operands(old(self).bytes(), old(self).position(), info@) == Ok::<
                    _,
                    WasmError,
                >((segs_view(segs@), final(self).position())),
                Err(e) => spec_operands(old(self).bytes(), old(self).position(), info@) == Err::<
                    (Seq<SegModel>, int),
                    _,
                >(e),
            },
    {
        let mut kept: Vec<ExprSeg> = Vec::new();
        let special_case = get_edge_case(info);
        if special_case == SpecialInstr::BrTable {
            let table = self.read_br_table()?;
            kept.push(table);
            assert(segs_view(kept@) =~= seq![table@]);
            return Ok(kept);
        }
        if special_case == SpecialInstr::CallIndirect {
            let type_index = self.read_dynamic_int()?;
            let table_index = self.read_dynamic_int()?;
            kept.push(ExprSeg::Int(type_index));
            kept.push(ExprSeg::Int(table_index));
            assert(segs_view(kept@) =~= seq![
                SegModel::Int(type_index),
                SegModel::Int(table_index),
            ]);
            return Ok(kept);
        }
        if info.name.is_empty() {
            return Err(WasmError::UnknownOpcode(info.instr));
        }
        if info.takes_align {
            let _align = self.read_u8()?;
        }
        let ghost start = self.position();
        let ghost whole = spec_immediates(self.bytes(), start, info.constants@, 0);
        assert(segs_view(kept@) =~= Seq::<SegModel>::empty());
        proof {
            assert(Seq::<SegModel>::empty() + whole->Ok_0.0 =~= whole->Ok_0.0);
        }
        let mut j: usize = 0;
        while j < info.constants.len()
            invariant
                j <= info.constants@.len(),
                self.follows(old(self)),
                whole == spec_operands(old(self).bytes(), old(self).position(), info@),
                whole == spec_after(
                    segs_view(kept@),
                    spec_immediates(self.bytes(), self.position(), info.constants@, j as int),
                ),
            decreases info.constants@.len() - j,
        {
            let ghost before = segs_view(kept@);
            let ghost at = self.position();
            match self.read_immediate(info.constants[j], &mut kept) {
                Err(e) => {
                    return Err(e);
                },
                Ok(_) => {},
            }
            proof {
                match spec_immediates(self.bytes(), self.position(), info.constants@, j + 1) {
                    Err(e) => {},
                    Ok((rest, end)) => {
                        let one = spec_immediate(
                            self.bytes(),
                            at,
                            info.constants@[j as int],
                        )->Ok_0.0;
                        assert(before + (one + rest) =~= (before + one) + rest);
                    },
                }
            }
            j = j + 1;
        }
        assert(segs_view(kept@) + Seq::<SegModel>::empty() =~= segs_view(kept@));
        Ok(kept)
    }

    /// Reads one expression: instructions up to the `end` that closes it,
    /// with each block nested as one segment. Hands back the expression and
    /// the bytes it was read from. Capture is off afterwards.
    pub fn read_expr(&mut self) -> (r: Result<(WasmExpr, Vec<u8>), WasmError>)
        requires
            old(self).wf(),
        ensures
            final(self).wf(),
            final(self).bytes() == old(self).bytes(),
            old(self).position() <= final(self).position(),
            match r {
                Ok((expr, raw)) => {
                    &&& spec_expr(old(self).bytes(), old(self).position()) == Ok::<_, WasmError>(
                        (expr@, final(self).position()),
                    )
                    &&& raw@ == old(self).bytes().subrange(
                        old(self).position(),
                        final(self).position(),
                    )
                    &&& !final(self).capturing()
                    &&& crate::nesting::spec_well_nested(expr@)
                },
                Err(e) => spec_expr(old(self).bytes(), old(self).position()) == Err::<
                    (Seq<SegModel>, int),
                    _,
                >(e),
            },
    {
        self.start_raw_section();
        let ghost start = self.position();
        let ghost bytes = self.bytes();
        let mut scope: Vec<WasmExpr> = Vec::new();
        let mut control_flow: Vec<InstrInfo> = Vec::new();
        let mut current = WasmExpr { expr_string: Vec::new() };
        proof {
            assert(current@ =~= Seq::<SegModel>::empty());
            assert(scope_view(scope@) =~= Seq::<Seq<SegModel>>::empty());
            assert(openers_view(control_flow@) =~= Seq::<InstrModel>::empty());
            match spec_expr(bytes, start) {
                Err(e) => {},
                Ok((segs, p)) => {
                    assert(Seq::<SegModel>::empty() + segs =~= segs);
                },
            }
        }
        loop
            invariant
                self.wf(),
                self.bytes() == bytes,
                bytes == old(self).bytes(),
                start == old(self).position(),
                start <= self.position(),
                self.capturing(),
                self.capture_start() == start,
                scope@.len() == control_flow@.len(),
                spec_resume(
                    scope_view(scope@),
                    openers_view(control_flow@),
                    current@,
                    bytes,
                    self.position(),
                ) == spec_expr(bytes, start),
            decreases bytes.len() - self.position(),
        {
            let ghost at = self.position();
            let ghost outers = scope_view(scope@);
            let ghost openers = openers_view(control_flow@);
            let ghost cur = current@;
            let byte = match self.read_u8() {
                Ok(b) => b,
                Err(e) => {
                    return Err(e);
                },
            };
            let info = instr_info(byte);
            let special_case = get_edge_case(info);
            proof {
                lemma_unassigned_is_empty(byte);
                if special_case == SpecialInstr::BeginBlock {
                    lemma_resume_begin(outers, openers, cur, bytes, at);
                } else if special_case == SpecialInstr::EndBlock {
                    lemma_resume_end(outers, openers, cur, bytes, at);
                } else {
                    lemma_resume_instr(outers, openers, cur, bytes, at);
                }
            }
            let mut operands = match self.read_operands(info) {
                Ok(v) => v,
                Err(e) => {
                    return Err(e);
                },
            };
            if special_case == SpecialInstr::BeginBlock {
                proof {
                    assert(scope_view(scope@.push(current)) =~= outers.push(cur));
                    assert(openers_view(control_flow@.push(info)) =~= openers.push(info@));
                }
                scope.push(current);
                control_flow.push(info);
                current = WasmExpr { expr_string: Vec::new() };
                assert(current@ =~= Seq::<SegModel>::empty());
            } else if special_case == SpecialInstr::EndBlock {
                proof {
                    lemma_segs_view_push(current.expr_string@, ExprSeg::Operation(info));
                }
                current.expr_string.push(ExprSeg::Operation(info));
                if scope.len() == 0 {
                    let raw = self.end_raw_section();
                    proof {
                        crate::nesting::lemma_decoded_nests_well(bytes, start);
                    }
                    return Ok((current, raw));
                }
                let opener = control_flow.pop().unwrap();
                let mut outer = scope.pop().unwrap();
                let inner = Box::new(current);
                proof {
                    assert(scope_view(scope@) =~= outers.drop_last());
                    assert(openers_view(control_flow@) =~= openers.drop_last());
                    lemma_seg_view_control(opener, inner, info);
                    lemma_segs_view_push(
                        outer.expr_string@,
                        ExprSeg::ControlFlow(opener, inner, info),
                    );
                }
                outer.expr_string.push(ExprSeg::ControlFlow(opener, inner, info));
                current = outer;
            } else {
                let mut layout: Vec<ExprSeg> = Vec::new();
                layout.push(ExprSeg::Operation(info));
                proof {
                    assert(segs_view(layout@ + operands@) =~= seq![SegModel::Operation(info@)]
                        + segs_view(operands@));
                }
                layout.append(&mut operands);
                proof {
                    lemma_seg_view_instr(layout);
                    lemma_segs_view_push(current.expr_string@, ExprSeg::Instr(layout));
                }
                current.expr_string.push(ExprSeg::Instr(layout));
            }
        }
    }
}

} // verus!
