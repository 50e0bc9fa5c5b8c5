//! The canonical encoding of numbers and expressions, and the proofs that
//! decoding an encoding gives back what was encoded.

use crate::file_reader::{
    lemma_expr_advance, lemma_operands_advance, lemma_pow128_bounds, pow128, spec_br_table,
    spec_end, spec_expr, spec_immediate, spec_immediates, spec_index, spec_leb_groups,
    spec_operands, spec_repeat, spec_signed, spec_sleb128, spec_u32, spec_u64, spec_u8,
    spec_uleb128, uleb128_reader,
};
use crate::instr_table::{lemma_unassigned_is_empty, spec_instr};
use crate::wasm_model::{spec_edge_case, InstrModel, Prim, SegModel, SpecialInstr, WasmError};
use vstd::prelude::*;

verus! {

/// The canonical unsigned LEB128 encoding of a number: its 7-bit groups,
/// lowest first, as few as hold it, each but the last with the high bit
/// set.
pub open spec fn spec_uleb_encode(v: nat) -> Seq<u8>
    decreases v,
{
    if v < 128 {
        seq![v as u8]
    } else {
        seq![(128 + v % 128) as u8] + spec_uleb_encode(v / 128)
    }
}

/// The canonical signed LEB128 encoding of a number: the 7-bit groups of
/// its two's complement, lowest first, as few as hold it with its sign,
/// each but the last with the high bit set.
pub open spec fn spec_sleb_encode(v: int) -> Seq<u8>
    decreases
            (if v >= 0 {
                v
            } else {
                -v
            }),
{
    if -64 <= v < 64 {
        seq![(v % 128) as u8]
    } else {
        seq![(128 + v % 128) as u8] + spec_sleb_encode(v / 128)
    }
}

/// Whether `bytes` holds `part` at `pos`.
pub open spec fn spec_holds(bytes: Seq<u8>, pos: int, part: Seq<u8>) -> bool {
    &&& 0 <= pos
    &&& pos + part.len() <= bytes.len()
    &&& bytes.subrange(pos, pos + part.len()) == part
}

proof fn lemma_holds_parts(bytes: Seq<u8>, pos: int, a: Seq<u8>, b: Seq<u8>)
    requires
        spec_holds(bytes, pos, a + b),
    ensures
        spec_holds(bytes, pos, a),
        spec_holds(bytes, pos + a.len(), b),
{
    let whole = bytes.subrange(pos, pos + (a + b).len());
    assert(bytes.subrange(pos, pos + a.len()) =~= whole.subrange(0, a.len() as int));
    assert(whole.subrange(0, a.len() as int) =~= a);
    assert(bytes.subrange(pos + a.len(), pos + a.len() + b.len()) =~= whole.subrange(
        a.len() as int,
        (a + b).len() as int,
    ));
    assert(whole.subrange(a.len() as int, (a + b).len() as int) =~= b);
}

proof fn lemma_holds_first(bytes: Seq<u8>, pos: int, part: Seq<u8>)
    requires
        spec_holds(bytes, pos, part),
        part.len() > 0,
    ensures
        pos < bytes.len(),
        bytes[pos] == part[0],
{
    assert(bytes.subrange(pos, pos + part.len())[0] == part[0]);
}

proof fn lemma_uleb_encode_len(v: nat, k: nat)
    requires
        k >= 1,
        v < pow128(k),
    ensures
        1 <= spec_uleb_encode(v).len() <= k,
    decreases v,
{
    if v >= 128 {
        if k == 1 {
            reveal_with_fuel(pow128, 2);
        }
        lemma_uleb_encode_len(v / 128, (k - 1) as nat);
    }
}

proof fn lemma_uleb_groups(bytes: Seq<u8>, pos: int, before: nat, v: nat)
    requires
        spec_holds(bytes, pos, spec_uleb_encode(v)),
        before + spec_uleb_encode(v).len() <= 10,
    ensures
        spec_leb_groups(bytes, pos, before) == Some((v as int, spec_uleb_encode(v).len())),
    decreases v,
{
    let enc = spec_uleb_encode(v);
    if v < 128 {
        lemma_holds_first(bytes, pos, enc);
    } else {
        let head = seq![(128 + v % 128) as u8];
        let tail = spec_uleb_encode(v / 128);
        lemma_holds_parts(bytes, pos, head, tail);
        lemma_holds_first(bytes, pos, head);
        lemma_uleb_groups(bytes, pos + 1, before + 1, v / 128);
    }
}

/// Decoding the canonical unsigned encoding of a number of 64 bits gives
/// the number back, and ends where the encoding ends.
pub proof fn lemma_uleb128_round_trip(bytes: Seq<u8>, pos: int, v: u64)
    requires
        spec_holds(bytes, pos, spec_uleb_encode(v as nat)),
    ensures
        spec_uleb128(bytes, pos) == Ok::<_, WasmError>(
            (v, pos + spec_uleb_encode(v as nat).len()),
        ),
{
    lemma_pow128_bounds(10);
    lemma_uleb_encode_len(v as nat, 10);
    lemma_uleb_groups(bytes, pos, 0, v as nat);
}

/// Half of 128 to the power `n`, for `n` of at least 1.
pub open spec fn spec_half(n: nat) -> int {
    64 * pow128((n - 1) as nat)
}

proof fn lemma_sleb_encode_len(v: int, k: nat)
    requires
        k >= 1,
        -spec_half(k) <= v < spec_half(k),
    ensures
        1 <= spec_sleb_encode(v).len() <= k,
    decreases
            (if v >= 0 {
                v
            } else {
                -v
            }),
{
    if !(-64 <= v < 64) {
        if k == 1 {
            reveal_with_fuel(pow128, 2);
        } else {
            reveal_with_fuel(pow128, 2);
            assert(spec_half(k) == 128 * spec_half((k - 1) as nat));
            lemma_sleb_encode_len(v / 128, (k - 1) as nat);
        }
    }
}

proof fn lemma_mod_step(q: int, r: int, p: int)
    requires
        0 <= r < 128,
        p > 0,
    ensures
        (128 * q + r) % (128 * p) == r + 128 * (q % p),
{
    let m = q % p;
    let t = q / p;
    assert(q == p * t + m && 0 <= m < p) by (nonlinear_arith)
        requires
            p > 0,
            m == q % p,
            t == q / p,
    ;
    let x = 128 * q + r;
    let y = 128 * m + r;
    assert(x == (128 * p) * t + y && 0 <= y < 128 * p) by (nonlinear_arith)
        requires
            q == p * t + m,
            0 <= m < p,
            0 <= r < 128,
            x == 128 * q + r,
            y == 128 * m + r,
    ;
    vstd::arithmetic::div_mod::lemma_fundamental_div_mod_converse(x, 128 * p, t, y);
}

proof fn lemma_sleb_groups(bytes: Seq<u8>, pos: int, before: nat, v: int)
    requires
        spec_holds(bytes, pos, spec_sleb_encode(v)),
        before + spec_sleb_encode(v).len() <= 10,
    ensures
        ({
            let n = spec_sleb_encode(v).len();
            &&& n >= 1
            &&& spec_leb_groups(bytes, pos, before) == Some((v % pow128(n), n))
            &&& -spec_half(n) <= v < spec_half(n)
            &&& (bytes[pos + n - 1] % 128 >= 64) == (v < 0)
        }),
    decreases
            (if v >= 0 {
                v
            } else {
                -v
            }),
{
    let enc = spec_sleb_encode(v);
    reveal_with_fuel(pow128, 2);
    if -64 <= v < 64 {
        lemma_holds_first(bytes, pos, enc);
    } else {
        let head = seq![(128 + v % 128) as u8];
        let tail = spec_sleb_encode(v / 128);
        lemma_holds_parts(bytes, pos, head, tail);
        lemma_holds_first(bytes, pos, head);
        lemma_sleb_groups(bytes, pos + 1, before + 1, v / 128);
        let n = tail.len();
        lemma_pow128_bounds(n);
        lemma_mod_step(v / 128, v % 128, pow128(n));
        assert(pow128(n + 1) == 128 * pow128(n));
        assert(spec_half(n + 1) == 128 * spec_half(n));
    }
}

/// Decoding the canonical signed encoding of a number of 64 bits gives the
/// number back, and ends where the encoding ends.
pub proof fn lemma_sleb128_round_trip(bytes: Seq<u8>, pos: int, v: i64)
    requires
        spec_holds(bytes, pos, spec_sleb_encode(v as int)),
    ensures
        spec_sleb128(bytes, pos) == Ok::<_, WasmError>(
            (v, pos + spec_sleb_encode(v as int).len()),
        ),
{
    lemma_pow128_bounds(9);
    lemma_pow128_bounds(10);
    reveal_with_fuel(pow128, 2);
    assert(spec_half(10) == 64 * pow128(9));
    lemma_sleb_encode_len(v as int, 10);
    lemma_sleb_groups(bytes, pos, 0, v as int);
    let n = spec_sleb_encode(v as int).len();
    let val = (v as int) % pow128(n);
    let last = bytes[pos + n - 1];
    lemma_pow128_bounds(n);
    if n < 10 {
        if v < 0 {
            assert(val == v + pow128(n)) by {
                vstd::arithmetic::div_mod::lemma_fundamental_div_mod_converse(
                    v as int,
                    pow128(n),
                    -1,
                    v + pow128(n),
                );
            }
        } else {
            assert(val == v) by {
                vstd::arithmetic::div_mod::lemma_small_mod(v as nat, pow128(n) as nat);
            }
        }
        assert(spec_signed(val, n, last) == v);
    } else {
        let u = val % 0x1_0000_0000_0000_0000;
        assert(pow128(10) == 0x1_0000_0000_0000_0000 * 64);
        assert(u == (v as int) % 0x1_0000_0000_0000_0000) by {
            vstd::arithmetic::div_mod::lemma_mod_mod(v as int, 0x1_0000_0000_0000_0000, 64);
        }
        if v < 0 {
            vstd::arithmetic::div_mod::lemma_fundamental_div_mod_converse(
                v as int,
                0x1_0000_0000_0000_0000,
                -1,
                v + 0x1_0000_0000_0000_0000,
            );
        } else {
            vstd::arithmetic::div_mod::lemma_small_mod(v as nat, 0x1_0000_0000_0000_0000);
        }
        assert(spec_signed(val, n, last) == v);
    }
}

/// The four bytes of a number, least significant first.
pub open spec fn spec_u32_encode(v: u32) -> Seq<u8> {
    seq![
        (v % 0x100) as u8,
        ((v / 0x100) % 0x100) as u8,
        ((v / 0x1_0000) % 0x100) as u8,
        (v / 0x100_0000) as u8,
    ]
}

/// The eight bytes of a number, least significant first.
pub open spec fn spec_u64_encode(v: u64) -> Seq<u8> {
    spec_u32_encode((v % 0x1_0000_0000) as u32) + spec_u32_encode((v / 0x1_0000_0000) as u32)
}

/// Decoding the four bytes of a number gives the number back.
pub proof fn lemma_u32_round_trip(bytes: Seq<u8>, pos: int, v: u32)
    requires
        spec_holds(bytes, pos, spec_u32_encode(v)),
    ensures
        spec_u32(bytes, pos) == Ok::<_, WasmError>((v, pos + 4)),
{
    let part = bytes.subrange(pos, pos + 4);
    assert(bytes[pos] == part[0]);
    assert(bytes[pos + 1] == part[1]);
    assert(bytes[pos + 2] == part[2]);
    assert(bytes[pos + 3] == part[3]);
}

/// Decoding the eight bytes of a number gives the number back.
pub proof fn lemma_u64_round_trip(bytes: Seq<u8>, pos: int, v: u64)
    requires
        spec_holds(bytes, pos, spec_u64_encode(v)),
    ensures
        spec_u64(bytes, pos) == Ok::<_, WasmError>((v, pos + 8)),
{
    let low = (v % 0x1_0000_0000) as u32;
    let high = (v / 0x1_0000_0000) as u32;
    lemma_holds_parts(bytes, pos, spec_u32_encode(low), spec_u32_encode(high));
    lemma_u32_round_trip(bytes, pos, low);
    lemma_u32_round_trip(bytes, pos + 4, high);
}

/// Whether a segment is the immediate that a tag asks for.
pub open spec fn spec_fits(t: Prim, s: SegModel) -> bool {
    match t {
        Prim::F32 => s is Float32,
        Prim::F64 => s is Float64,
        Prim::Local => s is Local,
        Prim::Global => s is Global,
        Prim::Func => s is Func,
        Prim::Void => false,
        _ => s is Int,
    }
}

/// The bytes of an immediate.
pub open spec fn spec_encode_immediate(s: SegModel) -> Seq<u8> {
    match s {
        SegModel::Float32(v) => spec_u32_encode(v),
        SegModel::Float64(v) => spec_u64_encode(v),
        SegModel::Local(v) => spec_uleb_encode(v as nat),
        SegModel::Global(v) => spec_uleb_encode(v as nat),
        SegModel::Func(v) => spec_uleb_encode(v as nat),
        SegModel::Int(v) => spec_sleb_encode(v as int),
        _ => Seq::empty(),
    }
}

/// Whether `kept` are the immediates that the tags `types[from..]` ask
/// for: one for each tag but the opaque ones, of which none is kept.
pub open spec fn spec_fit_all(types: Seq<Prim>, from: int, kept: Seq<SegModel>) -> bool
    decreases types.len() - from,
{
    if from < 0 || from >= types.len() {
        kept.len() == 0
    } else if types[from] == Prim::Void {
        spec_fit_all(types, from + 1, kept)
    } else {
        kept.len() > 0 && spec_fits(types[from], kept[0]) && spec_fit_all(
            types,
            from + 1,
            kept.drop_first(),
        )
    }
}

/// The bytes of the immediates `kept` of the tags `types[from..]`, with a
/// zero byte for each opaque one.
pub open spec fn spec_encode_immediates(types: Seq<Prim>, from: int, kept: Seq<SegModel>) -> Seq<
    u8,
>
    decreases types.len() - from,
{
    if from < 0 || from >= types.len() {
        Seq::empty()
    } else if types[from] == Prim::Void {
        seq![0u8] + spec_encode_immediates(types, from + 1, kept)
    } else {
        spec_encode_immediate(kept[0]) + spec_encode_immediates(
            types,
            from + 1,
            kept.drop_first(),
        )
    }
}

/// Bytes that stand for immediates of the tags `types[from..]` of which
/// nothing is known: zeros.
pub open spec fn spec_encode_blanks(types: Seq<Prim>, from: int) -> Seq<u8>
    decreases types.len() - from,
{
    if from < 0 || from >= types.len() {
        Seq::empty()
    } else {
        (match types[from] {
            Prim::F32 => spec_u32_encode(0),
            Prim::F64 => spec_u64_encode(0),
            _ => seq![0u8],
        }) + spec_encode_blanks(types, from + 1)
    }
}

/// The bytes of numbers in a row, each in unsigned LEB128.
pub open spec fn spec_encode_indices(v: Seq<u32>) -> Seq<u8>
    decreases v.len(),
{
    if v.len() == 0 {
        Seq::empty()
    } else {
        spec_uleb_encode(v[0] as nat) + spec_encode_indices(v.drop_first())
    }
}

/// The zero byte that stands for the alignment of a memory access.
pub open spec fn spec_encode_align(info: InstrModel) -> Seq<u8> {
    if info.takes_align {
        seq![0u8]
    } else {
        Seq::empty()
    }
}

/// Whether `layout` is an instruction as the builder makes it: the opcode
/// of an entry of the catalogue that neither opens nor closes a block,
/// with its immediates.
pub open spec fn spec_instr_ok(layout: Seq<SegModel>) -> bool {
    &&& layout.len() >= 1
    &&& layout[0] matches SegModel::Operation(info) && info == spec_instr(info.instr) && (
    match spec_edge_case(info.instr) {
        SpecialInstr::BeginBlock => false,
        SpecialInstr::EndBlock => false,
        SpecialInstr::BrTable => layout.len() == 2 && layout[1] is BrTable
            && layout[1]->BrTable_0.len() <= u64::MAX,
        SpecialInstr::CallIndirect => layout.len() == 3 && layout[1] is Int && layout[2] is Int,
        _ => info.name.len() > 0 && spec_fit_all(info.constants, 0, layout.drop_first()),
    })
}

/// The bytes of an instruction.
pub open spec fn spec_encode_instr(layout: Seq<SegModel>) -> Seq<u8> {
    let info = layout[0]->Operation_0;
    seq![info.instr] + (match spec_edge_case(info.instr) {
        SpecialInstr::BrTable => spec_uleb_encode(layout[1]->BrTable_0.len()) + spec_encode_indices(
            layout[1]->BrTable_0,
        ) + spec_uleb_encode(layout[1]->BrTable_1 as nat),
        SpecialInstr::CallIndirect => spec_sleb_encode(layout[1]->Int_0 as int) + spec_sleb_encode(
            layout[2]->Int_0 as int,
        ),
        _ => spec_encode_align(info) + spec_encode_immediates(
            info.constants,
            0,
            layout.drop_first(),
        ),
    })
}

/// Whether `segs` is an expression as the builder makes it: instructions
/// and blocks, then the `end` that closes it; each block opened by an
/// entry of the catalogue that opens blocks, over a body that is such an
/// expression itself.
pub open spec fn spec_expr_ok(segs: Seq<SegModel>) -> bool
    decreases segs,
{
    if segs.len() == 0 {
        false
    } else if segs.len() == 1 {
        segs[0] == SegModel::Operation(spec_end())
    } else {
        &&& match segs[0] {
            SegModel::Instr(layout) => spec_instr_ok(layout),
            SegModel::ControlFlow(opener, body, end) => {
                &&& opener == spec_instr(opener.instr)
                &&& spec_edge_case(opener.instr) == SpecialInstr::BeginBlock
                &&& opener.name.len() > 0
                &&& end == spec_end()
                &&& spec_expr_ok(body)
            },
            _ => false,
        }
        &&& spec_expr_ok(segs.drop_first())
    }
}

/// The canonical bytes of an expression: each opcode, each immediate in
/// its canonical encoding, and a zero byte for each alignment and each
/// immediate that the builder drops.
pub open spec fn spec_encode_expr(segs: Seq<SegModel>) -> Seq<u8>
    decreases segs,
{
    if segs.len() == 0 {
        Seq::empty()
    } else if segs.len() == 1 {
        seq![0x0bu8]
    } else {
        (match segs[0] {
            SegModel::Instr(layout) => spec_encode_instr(layout),
            SegModel::ControlFlow(opener, body, end) => seq![opener.instr] + spec_encode_align(
                opener,
            ) + spec_encode_blanks(opener.constants, 0) + spec_encode_expr(body),
            _ => Seq::empty(),
        }) + spec_encode_expr(segs.drop_first())
    }
}

proof fn lemma_holds_whole(bytes: Seq<u8>)
    ensures
        spec_holds(bytes, 0, bytes),
{
    assert(bytes.subrange(0, bytes.len() as int) =~= bytes);
}

proof fn lemma_zero_byte(bytes: Seq<u8>, pos: int)
    requires
        spec_holds(bytes, pos, seq![0u8]),
    ensures
        pos < bytes.len(),
        bytes[pos] == 0,
        spec_u8(bytes, pos) == Ok::<_, WasmError>((0u8, pos + 1)),
        spec_uleb128(bytes, pos) == Ok::<_, WasmError>((0u64, pos + 1)),
        spec_sleb128(bytes, pos) == Ok::<_, WasmError>((0i64, pos + 1)),
{
    lemma_holds_first(bytes, pos, seq![0u8]);
    reveal_with_fuel(pow128, 2);
}

proof fn lemma_immediate_round_trip(bytes: Seq<u8>, pos: int, t: Prim, s: SegModel)
    requires
        spec_fits(t, s),
        spec_holds(bytes, pos, spec_encode_immediate(s)),
    ensures
        spec_immediate(bytes, pos, t) == Ok::<_, WasmError>(
            (seq![s], pos + spec_encode_immediate(s).len()),
        ),
{
    match s {
        SegModel::Float32(v) => {
            lemma_u32_round_trip(bytes, pos, v);
        },
        SegModel::Float64(v) => {
            lemma_u64_round_trip(bytes, pos, v);
        },
        SegModel::Local(v) => {
            lemma_uleb128_round_trip(bytes, pos, v as u64);
        },
        SegModel::Global(v) => {
            lemma_uleb128_round_trip(bytes, pos, v as u64);
        },
        SegModel::Func(v) => {
            lemma_uleb128_round_trip(bytes, pos, v as u64);
        },
        SegModel::Int(v) => {
            lemma_sleb128_round_trip(bytes, pos, v);
        },
        _ => {},
    }
}

proof fn lemma_immediates_round_trip(
    bytes: Seq<u8>,
    pos: int,
    types: Seq<Prim>,
    from: int,
    kept: Seq<SegModel>,
)
    requires
        spec_fit_all(types, from, kept),
        spec_holds(bytes, pos, spec_encode_immediates(types, from, kept)),
    ensures
        spec_immediates(bytes, pos, types, from) == Ok::<_, WasmError>(
            (kept, pos + spec_encode_immediates(types, from, kept).len()),
        ),
    decreases types.len() - from,
{
    if from < 0 || from >= types.len() {
        assert(kept =~= Seq::<SegModel>::empty());
    } else if types[from] == Prim::Void {
        let rest = spec_encode_immediates(types, from + 1, kept);
        lemma_holds_parts(bytes, pos, seq![0u8], rest);
        lemma_zero_byte(bytes, pos);
        lemma_immediates_round_trip(bytes, pos + 1, types, from + 1, kept);
        assert(Seq::<SegModel>::empty() + kept =~= kept);
    } else {
        let first = spec_encode_immediate(kept[0]);
        let rest = spec_encode_immediates(types, from + 1, kept.drop_first());
        lemma_holds_parts(bytes, pos, first, rest);
        lemma_immediate_round_trip(bytes, pos, types[from], kept[0]);
        lemma_immediates_round_trip(bytes, pos + first.len(), types, from + 1, kept.drop_first());
        assert(seq![kept[0]] + kept.drop_first() =~= kept);
    }
}

proof fn lemma_blanks_decode(bytes: Seq<u8>, pos: int, types: Seq<Prim>, from: int)
    requires
        spec_holds(bytes, pos, spec_encode_blanks(types, from)),
    ensures
        spec_immediates(bytes, pos, types, from) matches Ok((kept, p)) && p == pos
            + spec_encode_blanks(types, from).len(),
    decreases types.len() - from,
{
    if from < 0 || from >= types.len() {
    } else {
        let first = match types[from] {
            Prim::F32 => spec_u32_encode(0),
            Prim::F64 => spec_u64_encode(0),
            _ => seq![0u8],
        };
        let rest = spec_encode_blanks(types, from + 1);
        lemma_holds_parts(bytes, pos, first, rest);
        match types[from] {
            Prim::F32 => {
                lemma_u32_round_trip(bytes, pos, 0);
            },
            Prim::F64 => {
                lemma_u64_round_trip(bytes, pos, 0);
            },
            _ => {
                lemma_zero_byte(bytes, pos);
            },
        }
        lemma_blanks_decode(bytes, pos + first.len(), types, from + 1);
    }
}

/// The numbers that indices are read from.
pub open spec fn spec_wide(v: Seq<u32>) -> Seq<u64> {
    Seq::new(v.len(), |i: int| v[i] as u64)
}

proof fn lemma_indices_round_trip(bytes: Seq<u8>, pos: int, v: Seq<u32>)
    requires
        spec_holds(bytes, pos, spec_encode_indices(v)),
    ensures
        spec_repeat(bytes, pos, v.len(), uleb128_reader()) == Ok::<_, WasmError>(
            (spec_wide(v), pos + spec_encode_indices(v).len()),
        ),
    decreases v.len(),
{
    if v.len() == 0 {
        assert(spec_wide(v) =~= Seq::<u64>::empty());
    } else {
        let first = spec_uleb_encode(v[0] as nat);
        let rest = spec_encode_indices(v.drop_first());
        lemma_holds_parts(bytes, pos, first, rest);
        lemma_uleb128_round_trip(bytes, pos, v[0] as u64);
        lemma_indices_round_trip(bytes, pos + first.len(), v.drop_first());
        assert(seq![v[0] as u64] + spec_wide(v.drop_first()) =~= spec_wide(v));
    }
}

/// The bytes of the immediate of `br_table`.
pub open spec fn spec_encode_br_table(targets: Seq<u32>, default: u32) -> Seq<u8> {
    spec_uleb_encode(targets.len()) + spec_encode_indices(targets) + spec_uleb_encode(
        default as nat,
    )
}

proof fn lemma_br_table_round_trip(bytes: Seq<u8>, pos: int, targets: Seq<u32>, default: u32)
    requires
        targets.len() <= u64::MAX,
        spec_holds(bytes, pos, spec_encode_br_table(targets, default)),
    ensures
        spec_br_table(bytes, pos) == Ok::<_, WasmError>(
            (
                SegModel::BrTable(targets, default),
                pos + spec_encode_br_table(targets, default).len(),
            ),
        ),
{
    let a = spec_uleb_encode(targets.len());
    let b = spec_encode_indices(targets);
    let c = spec_uleb_encode(default as nat);
    lemma_holds_parts(bytes, pos, a + b, c);
    lemma_holds_parts(bytes, pos, a, b);
    lemma_uleb128_round_trip(bytes, pos, targets.len() as u64);
    lemma_indices_round_trip(bytes, pos + a.len(), targets);
    lemma_uleb128_round_trip(bytes, pos + a.len() + b.len(), default as u64);
    assert(spec_wide(targets).map_values(|v: u64| spec_index(v)) =~= targets);
}

/// The bytes of the immediates of `call_indirect`.
pub open spec fn spec_encode_call(type_index: i64, table_index: i64) -> Seq<u8> {
    spec_sleb_encode(type_index as int) + spec_sleb_encode(table_index as int)
}

proof fn lemma_call_round_trip(bytes: Seq<u8>, pos: int, type_index: i64, table_index: i64)
    requires
        spec_holds(bytes, pos, spec_encode_call(type_index, table_index)),
    ensures
        spec_sleb128(bytes, pos) == Ok::<_, WasmError>(
            (type_index, pos + spec_sleb_encode(type_index as int).len()),
        ),
        spec_sleb128(bytes, pos + spec_sleb_encode(type_index as int).len()) == Ok::<
            _,
            WasmError,
        >((table_index, pos + spec_encode_call(type_index, table_index).len())),
{
    let a = spec_sleb_encode(type_index as int);
    let b = spec_sleb_encode(table_index as int);
    lemma_holds_parts(bytes, pos, a, b);
    lemma_sleb128_round_trip(bytes, pos, type_index);
    lemma_sleb128_round_trip(bytes, pos + a.len(), table_index);
}

proof fn lemma_plain_round_trip(bytes: Seq<u8>, pos: int, info: InstrModel, kept: Seq<SegModel>)
    requires
        spec_fit_all(info.constants, 0, kept),
        spec_holds(
            bytes,
            pos,
            spec_encode_align(info) + spec_encode_immediates(info.constants, 0, kept),
        ),
    ensures
        (if info.takes_align {
            match spec_u8(bytes, pos) {
                Err(e) => Err(e),
                Ok((align, p)) => spec_immediates(bytes, p, info.constants, 0),
            }
        } else {
            spec_immediates(bytes, pos, info.constants, 0)
        }) == Ok::<_, WasmError>(
            (
                kept,
                pos + (spec_encode_align(info) + spec_encode_immediates(
                    info.constants,
                    0,
                    kept,
                )).len(),
            ),
        ),
{
    let a = spec_encode_align(info);
    let b = spec_encode_immediates(info.constants, 0, kept);
    lemma_holds_parts(bytes, pos, a, b);
    if info.takes_align {
        lemma_zero_byte(bytes, pos);
    }
    lemma_immediates_round_trip(bytes, pos + a.len(), info.constants, 0, kept);
}

proof fn lemma_instr_round_trip(bytes: Seq<u8>, pos: int, layout: Seq<SegModel>)
    requires
        spec_instr_ok(layout),
        spec_holds(bytes, pos, spec_encode_instr(layout)),
    ensures
        pos < bytes.len(),
        layout[0] == SegModel::Operation(spec_instr(bytes[pos])),
        spec_operands(bytes, pos + 1, spec_instr(bytes[pos])) == Ok::<_, WasmError>(
            (layout.drop_first(), pos + spec_encode_instr(layout).len()),
        ),
{
    let info = layout[0]->Operation_0;
    let enc = spec_encode_instr(layout);
    let tail = enc.drop_first();
    assert(enc =~= seq![info.instr] + tail);
    lemma_holds_parts(bytes, pos, seq![info.instr], tail);
    lemma_holds_first(bytes, pos, seq![info.instr]);
    assert(bytes[pos] == info.instr);
    assert(spec_instr(bytes[pos]) == info);
    match spec_edge_case(info.instr) {
        SpecialInstr::BrTable => {
            let targets = layout[1]->BrTable_0;
            let default = layout[1]->BrTable_1;
            assert(tail =~= spec_encode_br_table(targets, default));
            lemma_br_table_round_trip(bytes, pos + 1, targets, default);
            assert(layout.drop_first() =~= seq![layout[1]]);
        },
        SpecialInstr::CallIndirect => {
            assert(tail =~= spec_encode_call(layout[1]->Int_0, layout[2]->Int_0));
            lemma_call_round_trip(bytes, pos + 1, layout[1]->Int_0, layout[2]->Int_0);
            assert(layout.drop_first() =~= seq![layout[1], layout[2]]);
        },
        _ => {
            assert(tail =~= spec_encode_align(info) + spec_encode_immediates(
                info.constants,
                0,
                layout.drop_first(),
            ));
            lemma_plain_round_trip(bytes, pos + 1, info, layout.drop_first());
        },
    }
}

/// Decoding the canonical bytes of an expression as the builder makes it
/// gives the expression back, and ends where the bytes end.
pub proof fn lemma_encoded_decodes(bytes: Seq<u8>, pos: int, segs: Seq<SegModel>)
    requires
        spec_expr_ok(segs),
        spec_holds(bytes, pos, spec_encode_expr(segs)),
    ensures
        spec_expr(bytes, pos) == Ok::<_, WasmError>((segs, pos + spec_encode_expr(segs).len())),
    decreases segs,
{
    if segs.len() == 1 {
        lemma_holds_first(bytes, pos, seq![0x0bu8]);
        reveal_strlit("end");
        assert(spec_immediates(bytes, pos + 1, spec_end().constants, 0) == Ok::<_, WasmError>(
            (Seq::<SegModel>::empty(), pos + 1),
        ));
        assert(segs =~= seq![SegModel::Operation(spec_end())]);
    } else {
        let rest = segs.drop_first();
        let rest_bytes = spec_encode_expr(rest);
        match segs[0] {
            SegModel::Instr(layout) => {
                let first = spec_encode_instr(layout);
                lemma_holds_parts(bytes, pos, first, rest_bytes);
                lemma_instr_round_trip(bytes, pos, layout);
                lemma_encoded_decodes(bytes, pos + first.len(), rest);
                assert(seq![layout[0]] + layout.drop_first() =~= layout);
                assert(seq![segs[0]] + rest =~= segs);
            },
            SegModel::ControlFlow(opener, body, end) => {
                let a = seq![opener.instr];
                let b = spec_encode_align(opener);
                let c = spec_encode_blanks(opener.constants, 0);
                let d = spec_encode_expr(body);
                let first = a + b + c + d;
                lemma_holds_parts(bytes, pos, first, rest_bytes);
                lemma_holds_parts(bytes, pos, a + b + c, d);
                lemma_holds_parts(bytes, pos, a + b, c);
                lemma_holds_parts(bytes, pos, a, b);
                lemma_holds_first(bytes, pos, a);
                if opener.takes_align {
                    lemma_zero_byte(bytes, pos + 1);
                }
                lemma_blanks_decode(bytes, pos + 1 + b.len(), opener.constants, 0);
                let p = pos + 1 + b.len() + c.len();
                assert(spec_operands(bytes, pos + 1, opener) matches Ok((kept, q)) && q == p);
                lemma_encoded_decodes(bytes, p, body);
                lemma_expr_advance(bytes, p);
                lemma_encoded_decodes(bytes, p + d.len(), rest);
                assert(seq![segs[0]] + rest =~= segs);
            },
            _ => {},
        }
    }
}

proof fn lemma_immediates_fit(bytes: Seq<u8>, pos: int, types: Seq<Prim>, from: int)
    ensures
        spec_immediates(bytes, pos, types, from) matches Ok((kept, p)) ==> spec_fit_all(
            types,
            from,
            kept,
        ),
    decreases types.len() - from,
{
    if from < 0 || from >= types.len() {
    } else {
        match spec_immediate(bytes, pos, types[from]) {
            Err(e) => {},
            Ok((one, next)) => {
                lemma_immediates_fit(bytes, next, types, from + 1);
                match spec_immediates(bytes, next, types, from + 1) {
                    Err(e) => {},
                    Ok((rest, end)) => {
                        if types[from] == Prim::Void {
                            assert(one + rest =~= rest);
                        } else {
                            assert((one + rest).drop_first() =~= rest);
                        }
                    },
                }
            },
        }
    }
}

proof fn lemma_repeat_len<E>(
    bytes: Seq<u8>,
    pos: int,
    n: nat,
    elem: spec_fn(Seq<u8>, int) -> Result<(E, int), WasmError>,
)
    ensures
        spec_repeat(bytes, pos, n, elem) matches Ok((v, p)) ==> v.len() == n,
    decreases n,
{
    if n > 0 {
        match elem(bytes, pos) {
            Err(e) => {},
            Ok((first, next)) => {
                lemma_repeat_len(bytes, next, (n - 1) as nat, elem);
            },
        }
    }
}

proof fn lemma_operands_fit(bytes: Seq<u8>, pos: int, op: u8)
    requires
        spec_edge_case(op) != SpecialInstr::BeginBlock,
        spec_edge_case(op) != SpecialInstr::EndBlock,
    ensures
        spec_operands(bytes, pos, spec_instr(op)) matches Ok((kept, p)) ==> spec_instr_ok(
            seq![SegModel::Operation(spec_instr(op))] + kept,
        ),
{
    let info = spec_instr(op);
    lemma_unassigned_is_empty(op);
    match spec_operands(bytes, pos, info) {
        Err(e) => {},
        Ok((kept, p)) => {
            let layout = seq![SegModel::Operation(info)] + kept;
            assert(layout.drop_first() =~= kept);
            match spec_edge_case(op) {
                SpecialInstr::BrTable => {
                    match spec_uleb128(bytes, pos) {
                        Err(e) => {},
                        Ok((n, q)) => {
                            lemma_repeat_len(bytes, q, n as nat, uleb128_reader());
                        },
                    }
                },
                SpecialInstr::CallIndirect => {},
                _ => {
                    lemma_immediates_fit(bytes, pos, info.constants, 0);
                    lemma_immediates_fit(bytes, pos + 1, info.constants, 0);
                },
            }
        },
    }
}

/// Every decoded expression is an expression as the builder makes it.
pub proof fn lemma_decoded_is_ok(bytes: Seq<u8>, pos: int)
    ensures
        spec_expr(bytes, pos) matches Ok((segs, p)) ==> spec_expr_ok(segs),
    decreases
            (if pos < bytes.len() {
                bytes.len() - pos
            } else {
                0
            }),
{
    if pos < 0 || pos >= bytes.len() {
    } else {
        let op = bytes[pos];
        let info = spec_instr(op);
        lemma_unassigned_is_empty(op);
        lemma_operands_advance(bytes, pos + 1, info);
        match spec_operands(bytes, pos + 1, info) {
            Err(e) => {},
            Ok((operands, p)) => {
                match spec_edge_case(info.instr) {
                    SpecialInstr::EndBlock => {},
                    SpecialInstr::BeginBlock => {
                        lemma_decoded_is_ok(bytes, p);
                        lemma_expr_advance(bytes, p);
                        match spec_expr(bytes, p) {
                            Err(e) => {},
                            Ok((body, q)) => {
                                lemma_decoded_is_ok(bytes, q);
                                match spec_expr(bytes, q) {
                                    Err(e) => {},
                                    Ok((rest, r)) => {
                                        let block = SegModel::ControlFlow(info, body, spec_end());
                                        assert((seq![block] + rest).drop_first() =~= rest);
                                    },
                                }
                            },
                        }
                    },
                    _ => {
                        lemma_operands_fit(bytes, pos + 1, op);
                        lemma_decoded_is_ok(bytes, p);
                        match spec_expr(bytes, p) {
                            Err(e) => {},
                            Ok((rest, r)) => {
                                let instr = SegModel::Instr(
                                    seq![SegModel::Operation(info)] + operands,
                                );
                                assert((seq![instr] + rest).drop_first() =~= rest);
                            },
                        }
                    },
                }
            },
        }
    }
}

/// Building the expression of the canonical bytes of a decoded expression
/// gives that expression again: the same opcodes in the same nesting, with
/// the same immediates.
pub proof fn lemma_expression_round_trip(bytes: Seq<u8>, pos: int)
    ensures
        spec_expr(bytes, pos) matches Ok((segs, p)) ==> spec_expr(spec_encode_expr(segs), 0)
            == Ok::<_, WasmError>((segs, spec_encode_expr(segs).len() as int)),
{
    match spec_expr(bytes, pos) {
        Err(e) => {},
        Ok((segs, p)) => {
            lemma_decoded_is_ok(bytes, pos);
            lemma_holds_whole(spec_encode_expr(segs));
            lemma_encoded_decodes(spec_encode_expr(segs), 0, segs);
        },
    }
}

} // verus!
