//! The catalogue of opcodes: one descriptor for each of the 256 opcode bytes.

use crate::wasm_model::{InstrInfo, InstrModel, Prim};
use vstd::prelude::*;
use vstd::string::*;

verus! {

/// An entry of the catalogue, written out.
pub open spec fn entry(
    instr: u8,
    name: &str,
    in_types: Seq<Prim>,
    out_types: Seq<Prim>,
    constants: Seq<Prim>,
    takes_align: bool,
) -> InstrModel {
    InstrModel { instr, name: name@, in_types, out_types, constants, takes_align }
}

/// The entry of an opcode that the catalogue leaves unassigned.
pub open spec fn unassigned(instr: u8) -> InstrModel {
    entry(instr, "", Seq::<Prim>::empty(), Seq::<Prim>::empty(), Seq::<Prim>::empty(), false)
}

/// The catalogue from `0x00` to `0x3f`: control, calls, variables, and the
/// loads and stores.
pub open spec fn spec_instr_0(op: u8) -> InstrModel {
    match op {
        0x00 => entry(
            0x00,
            "unreachable",
            Seq::<Prim>::empty(),
            Seq::<Prim>::empty(),
            Seq::<Prim>::empty(),
            false,
        ),
        0x01 => entry(
            0x01,
            "nop",
            Seq::<Prim>::empty(),
            Seq::<Prim>::empty(),
            Seq::<Prim>::empty(),
            false,
        ),
        0x02 => entry(
            0x02,
            "block",
            Seq::<Prim>::empty(),
            Seq::<Prim>::empty(),
            seq![Prim::Void],
            false,
        ),
        0x03 => entry(
            0x03,
            "loop",
            Seq::<Prim>::empty(),
            Seq::<Prim>::empty(),
            seq![Prim::Void],
            false,
        ),
        0x04 => entry(0x04, "if", seq![Prim::I32], Seq::<Prim>::empty(), seq![Prim::Void], false),
        0x05 => entry(
            0x05,
            "else",
            Seq::<Prim>::empty(),
            Seq::<Prim>::empty(),
            Seq::<Prim>::empty(),
            false,
        ),
        0x0b => entry(
            0x0b,
            "end",
            Seq::<Prim>::empty(),
            Seq::<Prim>::empty(),
            Seq::<Prim>::empty(),
            false,
        ),
        0x0c => entry(
            0x0c,
            "br",
            Seq::<Prim>::empty(),
            Seq::<Prim>::empty(),
            seq![Prim::I32],
            false,
        ),
        0x0d => entry(0x0d, "br_if", seq![Prim::I32], Seq::<Prim>::empty(), seq![Prim::I32], false),
        0x0e => entry(
            0x0e,
            "br_table",
            seq![Prim::I32],
            Seq::<Prim>::empty(),
            Seq::<Prim>::empty(),
            false,
        ),
        0x0f => entry(
            0x0f,
            "return",
            Seq::<Prim>::empty(),
            Seq::<Prim>::empty(),
            Seq::<Prim>::empty(),
            false,
        ),
        0x10 => entry(
            0x10,
            "call",
            Seq::<Prim>::empty(),
            Seq::<Prim>::empty(),
            seq![Prim::Func],
            false,
        ),
        0x11 => entry(
            0x11,
            "call_indirect",
            seq![Prim::I32],
            Seq::<Prim>::empty(),
            seq![Prim::I32, Prim::I32],
            false,
        ),
        0x1a => entry(
            0x1a,
            "drop",
            seq![Prim::Generic],
            Seq::<Prim>::empty(),
            Seq::<Prim>::empty(),
            false,
        ),
        0x1b => entry(
            0x1b,
            "select",
            seq![Prim::Generic, Prim::Generic, Prim::I32],
            seq![Prim::Generic],
            Seq::<Prim>::empty(),
            false,
        ),
        0x20 => entry(
            0x20,
            "local.get",
            Seq::<Prim>::empty(),
            seq![Prim::Generic],
            seq![Prim::Local],
            false,
        ),
        0x21 => entry(
            0x21,
            "local.set",
            seq![Prim::Generic],
            Seq::<Prim>::empty(),
            seq![Prim::Local],
            false,
        ),
        0x22 => entry(
            0x22,
            "local.tee",
            seq![Prim::Generic],
            seq![Prim::Generic],
            seq![Prim::Local],
            false,
        ),
        0x23 => entry(
            0x23,
            "global.get",
            Seq::<Prim>::empty(),
            seq![Prim::Generic],
            seq![Prim::Global],
            false,
        ),
        0x24 => entry(
            0x24,
            "global.set",
            seq![Prim::Generic],
            Seq::<Prim>::empty(),
            seq![Prim::Global],
            false,
        ),
        0x28 => entry(0x28, "i32.load", seq![Prim::I32], seq![Prim::I32], seq![Prim::I32], true),
        0x29 => entry(0x29, "i64.load", seq![Prim::I32], seq![Prim::I64], seq![Prim::I32], true),
        0x2a => entry(0x2a, "f32.load", seq![Prim::I32], seq![Prim::F32], seq![Prim::I32], true),
        0x2b => entry(0x2b, "f64.load", seq![Prim::I32], seq![Prim::F64], seq![Prim::I32], true),
        0x2c => entry(0x2c, "i32.load8_s", seq![Prim::I32], seq![Prim::I32], seq![Prim::I32], true),
        0x2d => entry(0x2d, "i32.load8_u", seq![Prim::I32], seq![Prim::I32], seq![Prim::I32], true),
        0x2e => entry(
            0x2e,
            "i32.load16_s",
            seq![Prim::I32],
            seq![Prim::I32],
            seq![Prim::I32],
            true,
        ),
        0x2f => entry(
            0x2f,
            "i32.load16_u",
            seq![Prim::I32],
            seq![Prim::I32],
            seq![Prim::I32],
            true,
        ),
        0x30 => entry(0x30, "i64.load8_s", seq![Prim::I32], seq![Prim::I64], seq![Prim::I32], true),
        0x31 => entry(0x31, "i64.load8_u", seq![Prim::I32], seq![Prim::I64], seq![Prim::I32], true),
        0x32 => entry(
            0x32,
            "i64.load16_s",
            seq![Prim::I32],
            seq![Prim::I64],
            seq![Prim::I32],
            true,
        ),
        0x33 => entry(
            0x33,
            "i64.load16_u",
            seq![Prim::I32],
            seq![Prim::I64],
            seq![Prim::I32],
            true,
        ),
        0x34 => entry(
            0x34,
            "i64.load32_s",
            seq![Prim::I32],
            seq![Prim::I64],
            seq![Prim::I32],
            true,
        ),
        0x35 => entry(
            0x35,
            "i64.load32_u",
            seq![Prim::I32],
            seq![Prim::I64],
            seq![Prim::I32],
            true,
        ),
        0x36 => entry(
            0x36,
            "i32.store",
            seq![Prim::I32, Prim::I32],
            Seq::<Prim>::empty(),
            seq![Prim::I32],
            true,
        ),
        0x37 => entry(
            0x37,
            "i64.store",
            seq![Prim::I32, Prim::I64],
            Seq::<Prim>::empty(),
            seq![Prim::I32],
            true,
        ),
        0x38 => entry(
            0x38,
            "f32.store",
            seq![Prim::I32, Prim::F32],
            Seq::<Prim>::empty(),
            seq![Prim::I32],
            true,
        ),
        0x39 => entry(
            0x39,
            "f64.store",
            seq![Prim::I32, Prim::F64],
            Seq::<Prim>::empty(),
            seq![Prim::I32],
            true,
        ),
        0x3a => entry(
            0x3a,
            "i32.store8",
            seq![Prim::I32, Prim::I32],
            Seq::<Prim>::empty(),
            seq![Prim::I32],
            true,
        ),
        0x3b => entry(
            0x3b,
            "i32.store16",
            seq![Prim::I32, Prim::I32],
            Seq::<Prim>::empty(),
            seq![Prim::I32],
            true,
        ),
        0x3c => entry(
            0x3c,
            "i64.store8",
            seq![Prim::I32, Prim::I64],
            Seq::<Prim>::empty(),
            seq![Prim::I32],
            true,
        ),
        0x3d => entry(
            0x3d,
            "i64.store16",
            seq![Prim::I32, Prim::I64],
            Seq::<Prim>::empty(),
            seq![Prim::I32],
            true,
        ),
        0x3e => entry(
            0x3e,
            "i64.store32",
            seq![Prim::I32, Prim::I64],
            Seq::<Prim>::empty(),
            seq![Prim::I32],
            true,
        ),
        0x3f => entry(
            0x3f,
            "memory.size",
            Seq::<Prim>::empty(),
            seq![Prim::I32],
            seq![Prim::Void],
            false,
        ),
        _ => unassigned(op),
    }
}

/// The catalogue from `0x40` to `0x7f`: constants, comparisons, and the
/// arithmetic of integers.
pub open spec fn spec_instr_1(op: u8) -> InstrModel {
    match op {
        0x40 => entry(
            0x40,
            "memory.grow",
            seq![Prim::I32],
            seq![Prim::I32],
            seq![Prim::Void],
            false,
        ),
        0x41 => entry(
            0x41,
            "i32.const",
            Seq::<Prim>::empty(),
            seq![Prim::I32],
            seq![Prim::I32],
            false,
        ),
        0x42 => entry(
            0x42,
            "i64.const",
            Seq::<Prim>::empty(),
            seq![Prim::I64],
            seq![Prim::I64],
            false,
        ),
        0x43 => entry(
            0x43,
            "f32.const",
            Seq::<Prim>::empty(),
            seq![Prim::F32],
            seq![Prim::F32],
            false,
        ),
        0x44 => entry(
            0x44,
            "f64.const",
            Seq::<Prim>::empty(),
            seq![Prim::F64],
            seq![Prim::F64],
            false,
        ),
        0x45 => entry(
            0x45,
            "i32.eqz",
            seq![Prim::I32],
            seq![Prim::I32],
            Seq::<Prim>::empty(),
            false,
        ),
        0x46 => entry(
            0x46,
            "i32.eq",
            seq![Prim::I32, Prim::I32],
            seq![Prim::I32],
            Seq::<Prim>::empty(),
            false,
        ),
        0x47 => entry(
            0x47,
            "i32.ne",
            seq![Prim::I32, Prim::I32],
            seq![Prim::I32],
            Seq::<Prim>::empty(),
            false,
        ),
        0x48 => entry(
            0x48,
            "i32.lt_s",
            seq![Prim::I32, Prim::I32],
            seq![Prim::I32],
            Seq::<Prim>::empty(),
            false,
        ),
        0x49 => entry(
            0x49,
            "i32.lt_u",
            seq![Prim::I32, Prim::I32],
            seq![Prim::I32],
            Seq::<Prim>::empty(),
            false,
        ),
        0x4a => entry(
            0x4a,
            "i32.gt_s",
            seq![Prim::I32, Prim::I32],
            seq![Prim::I32],
            Seq::<Prim>::empty(),
            false,
        ),
        0x4b => entry(
            0x4b,
            "i32.gt_u",
            seq![Prim::I32, Prim::I32],
            seq![Prim::I32],
            Seq::<Prim>::empty(),
            false,
        ),
        0x4c => entry(
            0x4c,
            "i32.le_s",
            seq![Prim::I32, Prim::I32],
            seq![Prim::I32],
            Seq::<Prim>::empty(),
            false,
        ),
        0x4d => entry(
            0x4d,
            "i32.le_u",
            seq![Prim::I32, Prim::I32],
            seq![Prim::I32],
            Seq::<Prim>::empty(),
            false,
        ),
        0x4e => entry(
            0x4e,
            "i32.ge_s",
            seq![Prim::I32, Prim::I32],
            seq![Prim::I32],
            Seq::<Prim>::empty(),
            false,
        ),
        0x4f => entry(
            0x4f,
            "i32.ge_u",
            seq![Prim::I32, Prim::I32],
            seq![Prim::I32],
            Seq::<Prim>::empty(),
            false,
        ),
        0x50 => entry(
            0x50,
            "i64.eqz",
            seq![Prim::I64],
            seq![Prim::I32],
            Seq::<Prim>::empty(),
            false,
        ),
        0x51 => entry(
            0x51,
            "i64.eq",
            seq![Prim::I64, Prim::I64],
            seq![Prim::I32],
            Seq::<Prim>::empty(),
            false,
        ),
        0x52 => entry(
            0x52,
            "i64.ne",
            seq![Prim::I64, Prim::I64],
            seq![Prim::I32],
            Seq::<Prim>::empty(),
            false,
        ),
        0x53 => entry(
            0x53,
            "i64.lt_s",
            seq![Prim::I64, Prim::I64],
            seq![Prim::I32],
            Seq::<Prim>::empty(),
            false,
        ),
        0x54 => entry(
            0x54,
            "i64.lt_u",
            seq![Prim::I64, Prim::I64],
            seq![Prim::I32],
            Seq::<Prim>::empty(),
            false,
        ),
        0x55 => entry(
            0x55,
            "i64.gt_s",
            seq![Prim::I64, Prim::I64],
            seq![Prim::I32],
            Seq::<Prim>::empty(),
            false,
        ),
        0x56 => entry(
            0x56,
            "i64.gt_u",
            seq![Prim::I64, Prim::I64],
            seq![Prim::I32],
            Seq::<Prim>::empty(),
            false,
        ),
        0x57 => entry(
            0x57,
            "i64.le_s",
            seq![Prim::I64, Prim::I64],
            seq![Prim::I32],
            Seq::<Prim>::empty(),
            false,
        ),
        0x58 => entry(
            0x58,
            "i64.le_u",
            seq![Prim::I64, Prim::I64],
            seq![Prim::I32],
            Seq::<Prim>::empty(),
            false,
        ),
        0x59 => entry(
            0x59,
            "i64.ge_s",
            seq![Prim::I64, Prim::I64],
            seq![Prim::I32],
            Seq::<Prim>::empty(),
            false,
        ),
        0x5a => entry(
            0x5a,
            "i64.ge_u",
            seq![Prim::I64, Prim::I64],
            seq![Prim::I32],
            Seq::<Prim>::empty(),
            false,
        ),
        0x5b => entry(
            0x5b,
            "f32.eq",
            seq![Prim::F32, Prim::F32],
            seq![Prim::I32],
            Seq::<Prim>::empty(),
            false,
        ),
        0x5c => entry(
            0x5c,
            "f32.ne",
            seq![Prim::F32, Prim::F32],
            seq![Prim::I32],
            Seq::<Prim>::empty(),
            false,
        ),
        0x5d => entry(
            0x5d,
            "f32.lt",
            seq![Prim::F32, Prim::F32],
            seq![Prim::I32],
            Seq::<Prim>::empty(),
            false,
        ),
        0x5e => entry(
            0x5e,
            "f32.gt",
            seq![Prim::F32, Prim::F32],
            seq![Prim::I32],
            Seq::<Prim>::empty(),
            false,
        ),
        0x5f => entry(
            0x5f,
            "f32.le",
            seq![Prim::F32, Prim::F32],
            seq![Prim::I32],
            Seq::<Prim>::empty(),
            false,
        ),
        0x60 => entry(
            0x60,
            "f32.ge",
            seq![Prim::F32, Prim::F32],
            seq![Prim::I32],
            Seq::<Prim>::empty(),
            false,
        ),
        0x61 => entry(
            0x61,
            "f64.eq",
            seq![Prim::F64, Prim::F64],
            seq![Prim::I32],
            Seq::<Prim>::empty(),
            false,
        ),
        0x62 => entry(
            0x62,
            "f64.ne",
            seq![Prim::F64, Prim::F64],
            seq![Prim::I32],
            Seq::<Prim>::empty(),
            false,
        ),
        0x63 => entry(
            0x63,
            "f64.lt",
            seq![Prim::F64, Prim::F64],
            seq![Prim::I32],
            Seq::<Prim>::empty(),
            false,
        ),
        0x64 => entry(
            0x64,
            "f64.gt",
            seq![Prim::F64, Prim::F64],
            seq![Prim::I32],
            Seq::<Prim>::empty(),
            false,
        ),
        0x65 => entry(
            0x65,
            "f64.le",
            seq![Prim::F64, Prim::F64],
            seq![Prim::I32],
            Seq::<Prim>::empty(),
            false,
        ),
        0x66 => entry(
            0x66,
            "f64.ge",
            seq![Prim::F64, Prim::F64],
            seq![Prim::I32],
            Seq::<Prim>::empty(),
            false,
        ),
        0x67 => entry(
            0x67,
            "i32.clz",
            seq![Prim::I32],
            seq![Prim::I32],
            Seq::<Prim>::empty(),
            false,
        ),
        0x68 => entry(
            0x68,
            "i32.ctz",
            seq![Prim::I32],
            seq![Prim::I32],
            Seq::<Prim>::empty(),
            false,
        ),
        0x69 => entry(
            0x69,
            "i32.popcnt",
            seq![Prim::I32],
            seq![Prim::I32],
            Seq::<Prim>::empty(),
            false,
        ),
        0x6a => entry(
            0x6a,
            "i32.add",
            seq![Prim::I32, Prim::I32],
            seq![Prim::I32],
            Seq::<Prim>::empty(),
            false,
        ),
        0x6b => entry(
            0x6b,
            "i32.sub",
            seq![Prim::I32, Prim::I32],
            seq![Prim::I32],
            Seq::<Prim>::empty(),
            false,
        ),
        0x6c => entry(
            0x6c,
            "i32.mul",
            seq![Prim::I32, Prim::I32],
            seq![Prim::I32],
            Seq::<Prim>::empty(),
            false,
        ),
        0x6d => entry(
            0x6d,
            "i32.div_s",
            seq![Prim::I32, Prim::I32],
            seq![Prim::I32],
            Seq::<Prim>::empty(),
            false,
        ),
        0x6e => entry(
            0x6e,
            "i32.div_u",
            seq![Prim::I32, Prim::I32],
            seq![Prim::I32],
            Seq::<Prim>::empty(),
            false,
        ),
        0x6f => entry(
            0x6f,
            "i32.rem_s",
            seq![Prim::I32, Prim::I32],
            seq![Prim::I32],
            Seq::<Prim>::empty(),
            false,
        ),
        0x70 => entry(
            0x70,
            "i32.rem_u",
            seq![Prim::I32, Prim::I32],
            seq![Prim::I32],
            Seq::<Prim>::empty(),
            false,
        ),
        0x71 => entry(
            0x71,
            "i32.and",
            seq![Prim::I32, Prim::I32],
            seq![Prim::I32],
            Seq::<Prim>::empty(),
            false,
        ),
        0x72 => entry(
            0x72,
            "i32.or",
            seq![Prim::I32, Prim::I32],
            seq![Prim::I32],
            Seq::<Prim>::empty(),
            false,
        ),
        0x73 => entry(
            0x73,
            "i32.xor",
            seq![Prim::I32, Prim::I32],
            seq![Prim::I32],
            Seq::<Prim>::empty(),
            false,
        ),
        0x74 => entry(
            0x74,
            "i32.shl",
            seq![Prim::I32, Prim::I32],
            seq![Prim::I32],
            Seq::<Prim>::empty(),
            false,
        ),
        0x75 => entry(
            0x75,
            "i32.shr_s",
            seq![Prim::I32, Prim::I32],
            seq![Prim::I32],
            Seq::<Prim>::empty(),
            false,
        ),
        0x76 => entry(
            0x76,
            "i32.shr_u",
            seq![Prim::I32, Prim::I32],
            seq![Prim::I32],
            Seq::<Prim>::empty(),
            false,
        ),
        0x77 => entry(
            0x77,
            "i32.rotl",
            seq![Prim::I32, Prim::I32],
            seq![Prim::I32],
            Seq::<Prim>::empty(),
            false,
        ),
        0x78 => entry(
            0x78,
            "i32.rotr",
            seq![Prim::I32, Prim::I32],
            seq![Prim::I32],
            Seq::<Prim>::empty(),
            false,
        ),
        0x79 => entry(
            0x79,
            "i64.clz",
            seq![Prim::I64],
            seq![Prim::I64],
            Seq::<Prim>::empty(),
            false,
        ),
        0x7a => entry(
            0x7a,
            "i64.ctz",
            seq![Prim::I64],
            seq![Prim::I64],
            Seq::<Prim>::empty(),
            false,
        ),
        0x7b => entry(
            0x7b,
            "i64.popcnt",
            seq![Prim::I64],
            seq![Prim::I64],
            Seq::<Prim>::empty(),
            false,
        ),
        0x7c => entry(
            0x7c,
            "i64.add",
            seq![Prim::I64, Prim::I64],
            seq![Prim::I64],
            Seq::<Prim>::empty(),
            false,
        ),
        0x7d => entry(
            0x7d,
            "i64.sub",
            seq![Prim::I64, Prim::I64],
            seq![Prim::I64],
            Seq::<Prim>::empty(),
            false,
        ),
        0x7e => entry(
            0x7e,
            "i64.mul",
            seq![Prim::I64, Prim::I64],
            seq![Prim::I64],
            Seq::<Prim>::empty(),
            false,
        ),
        0x7f => entry(
            0x7f,
            "i64.div_s",
            seq![Prim::I64, Prim::I64],
            seq![Prim::I64],
            Seq::<Prim>::empty(),
            false,
        ),
        _ => unassigned(op),
    }
}

/// The catalogue from `0x80` to `0xbf`: the arithmetic of floats, and
/// conversions.
pub open spec fn spec_instr_2(op: u8) -> InstrModel {
    match op {
        0x80 => entry(
            0x80,
            "i64.div_u",
            seq![Prim::I64, Prim::I64],
            seq![Prim::I64],
            Seq::<Prim>::empty(),
            false,
        ),
        0x81 => entry(
            0x81,
            "i64.rem_s",
            seq![Prim::I64, Prim::I64],
            seq![Prim::I64],
            Seq::<Prim>::empty(),
            false,
        ),
        0x82 => entry(
            0x82,
            "i64.rem_u",
            seq![Prim::I64, Prim::I64],
            seq![Prim::I64],
            Seq::<Prim>::empty(),
            false,
        ),
        0x83 => entry(
            0x83,
            "i64.and",
            seq![Prim::I64, Prim::I64],
            seq![Prim::I64],
            Seq::<Prim>::empty(),
            false,
        ),
        0x84 => entry(
            0x84,
            "i64.or",
            seq![Prim::I64, Prim::I64],
            seq![Prim::I64],
            Seq::<Prim>::empty(),
            false,
        ),
        0x85 => entry(
            0x85,
            "i64.xor",
            seq![Prim::I64, Prim::I64],
            seq![Prim::I64],
            Seq::<Prim>::empty(),
            false,
        ),
        0x86 => entry(
            0x86,
            "i64.shl",
            seq![Prim::I64, Prim::I64],
            seq![Prim::I64],
            Seq::<Prim>::empty(),
            false,
        ),
        0x87 => entry(
            0x87,
            "i64.shr_s",
            seq![Prim::I64, Prim::I64],
            seq![Prim::I64],
            Seq::<Prim>::empty(),
            false,
        ),
        0x88 => entry(
            0x88,
            "i64.shr_u",
            seq![Prim::I64, Prim::I64],
            seq![Prim::I64],
            Seq::<Prim>::empty(),
            false,
        ),
        0x89 => entry(
            0x89,
            "i64.rotl",
            seq![Prim::I64, Prim::I64],
            seq![Prim::I64],
            Seq::<Prim>::empty(),
            false,
        ),
        0x8a => entry(
            0x8a,
            "i64.rotr",
            seq![Prim::I64, Prim::I64],
            seq![Prim::I64],
            Seq::<Prim>::empty(),
            false,
        ),
        0x8b => entry(
            0x8b,
            "f32.abs",
            seq![Prim::F32],
            seq![Prim::F32],
            Seq::<Prim>::empty(),
            false,
        ),
        0x8c => entry(
            0x8c,
            "f32.neg",
            seq![Prim::F32],
            seq![Prim::F32],
            Seq::<Prim>::empty(),
            false,
        ),
        0x8d => entry(
            0x8d,
            "f32.ceil",
            seq![Prim::F32],
            seq![Prim::F32],
            Seq::<Prim>::empty(),
            false,
        ),
        0x8e => entry(
            0x8e,
            "f32.floor",
            seq![Prim::F32],
            seq![Prim::F32],
            Seq::<Prim>::empty(),
            false,
        ),
        0x8f => entry(
            0x8f,
            "f32.trunc",
            seq![Prim::F32],
            seq![Prim::F32],
            Seq::<Prim>::empty(),
            false,
        ),
        0x90 => entry(
            0x90,
            "f32.nearest",
            seq![Prim::F32],
            seq![Prim::F32],
            Seq::<Prim>::empty(),
            false,
        ),
        0x91 => entry(
            0x91,
            "f32.sqrt",
            seq![Prim::F32],
            seq![Prim::F32],
            Seq::<Prim>::empty(),
            false,
        ),
        0x92 => entry(
            0x92,
            "f32.add",
            seq![Prim::F32, Prim::F32],
            seq![Prim::F32],
            Seq::<Prim>::empty(),
            false,
        ),
        0x93 => entry(
            0x93,
            "f32.sub",
            seq![Prim::F32, Prim::F32],
            seq![Prim::F32],
            Seq::<Prim>::empty(),
            false,
        ),
        0x94 => entry(
            0x94,
            "f32.mul",
            seq![Prim::F32, Prim::F32],
            seq![Prim::F32],
            Seq::<Prim>::empty(),
            false,
        ),
        0x95 => entry(
            0x95,
            "f32.div",
            seq![Prim::F32, Prim::F32],
            seq![Prim::F32],
            Seq::<Prim>::empty(),
            false,
        ),
        0x96 => entry(
            0x96,
            "f32.min",
            seq![Prim::F32, Prim::F32],
            seq![Prim::F32],
            Seq::<Prim>::empty(),
            false,
        ),
        0x97 => entry(
            0x97,
            "f32.max",
            seq![Prim::F32, Prim::F32],
            seq![Prim::F32],
            Seq::<Prim>::empty(),
            false,
        ),
        0x98 => entry(
            0x98,
            "f32.copysign",
            seq![Prim::F32, Prim::F32],
            seq![Prim::F32],
            Seq::<Prim>::empty(),
            false,
        ),
        0x99 => entry(
            0x99,
            "f64.abs",
            seq![Prim::F64],
            seq![Prim::F64],
            Seq::<Prim>::empty(),
            false,
        ),
        0x9a => entry(
            0x9a,
            "f64.neg",
            seq![Prim::F64],
            seq![Prim::F64],
            Seq::<Prim>::empty(),
            false,
        ),
        0x9b => entry(
            0x9b,
            "f64.ceil",
            seq![Prim::F64],
            seq![Prim::F64],
            Seq::<Prim>::empty(),
            false,
        ),
        0x9c => entry(
            0x9c,
            "f64.floor",
            seq![Prim::F64],
            seq![Prim::F64],
            Seq::<Prim>::empty(),
            false,
        ),
        0x9d => entry(
            0x9d,
            "f64.trunc",
            seq![Prim::F64],
            seq![Prim::F64],
            Seq::<Prim>::empty(),
            false,
        ),
        0x9e => entry(
            0x9e,
            "f64.nearest",
            seq![Prim::F64],
            seq![Prim::F64],
            Seq::<Prim>::empty(),
            false,
        ),
        0x9f => entry(
            0x9f,
            "f64.sqrt",
            seq![Prim::F64],
            seq![Prim::F64],
            Seq::<Prim>::empty(),
            false,
        ),
        0xa0 => entry(
            0xa0,
            "f64.add",
            seq![Prim::F64, Prim::F64],
            seq![Prim::F64],
            Seq::<Prim>::empty(),
            false,
        ),
        0xa1 => entry(
            0xa1,
            "f64.sub",
            seq![Prim::F64, Prim::F64],
            seq![Prim::F64],
            Seq::<Prim>::empty(),
            false,
        ),
        0xa2 => entry(
            0xa2,
            "f64.mul",
            seq![Prim::F64, Prim::F64],
            seq![Prim::F64],
            Seq::<Prim>::empty(),
            false,
        ),
        0xa3 => entry(
            0xa3,
            "f64.div",
            seq![Prim::F64, Prim::F64],
            seq![Prim::F64],
            Seq::<Prim>::empty(),
            false,
        ),
        0xa4 => entry(
            0xa4,
            "f64.min",
            seq![Prim::F64, Prim::F64],
            seq![Prim::F64],
            Seq::<Prim>::empty(),
            false,
        ),
        0xa5 => entry(
            0xa5,
            "f64.max",
            seq![Prim::F64, Prim::F64],
            seq![Prim::F64],
            Seq::<Prim>::empty(),
            false,
        ),
        0xa6 => entry(
            0xa6,
            "f64.copysign",
            seq![Prim::F64, Prim::F64],
            seq![Prim::F64],
            Seq::<Prim>::empty(),
            false,
        ),
        0xa7 => entry(
            0xa7,
            "i32.wrap_i64",
            seq![Prim::I64],
            seq![Prim::I32],
            Seq::<Prim>::empty(),
            false,
        ),
        0xa8 => entry(
            0xa8,
            "i32.trunc_f32_s",
            seq![Prim::F32],
            seq![Prim::I32],
            Seq::<Prim>::empty(),
            false,
        ),
        0xa9 => entry(
            0xa9,
            "i32.trunc_f32_u",
            seq![Prim::F32],
            seq![Prim::I32],
            Seq::<Prim>::empty(),
            false,
        ),
        0xaa => entry(
            0xaa,
            "i32.trunc_f64_s",
            seq![Prim::F64],
            seq![Prim::I32],
            Seq::<Prim>::empty(),
            false,
        ),
        0xab => entry(
            0xab,
            "i32.trunc_f64_u",
            seq![Prim::F64],
            seq![Prim::I32],
            Seq::<Prim>::empty(),
            false,
        ),
        0xac => entry(
            0xac,
            "i64.extend_i32_s",
            seq![Prim::I32],
            seq![Prim::I64],
            Seq::<Prim>::empty(),
            false,
        ),
        0xad => entry(
            0xad,
            "i64.extend_i32_u",
            seq![Prim::I32],
            seq![Prim::I64],
            Seq::<Prim>::empty(),
            false,
        ),
        0xae => entry(
            0xae,
            "i64.trunc_f32_s",
            seq![Prim::F32],
            seq![Prim::I64],
            Seq::<Prim>::empty(),
            false,
        ),
        0xaf => entry(
            0xaf,
            "i64.trunc_f32_u",
            seq![Prim::F32],
            seq![Prim::I64],
            Seq::<Prim>::empty(),
            false,
        ),
        0xb0 => entry(
            0xb0,
            "i64.trunc_f64_s",
            seq![Prim::F64],
            seq![Prim::I64],
            Seq::<Prim>::empty(),
            false,
        ),
        0xb1 => entry(
            0xb1,
            "i64.trunc_f64_u",
            seq![Prim::F64],
            seq![Prim::I64],
            Seq::<Prim>::empty(),
            false,
        ),
        0xb2 => entry(
            0xb2,
            "f32.convert_i32_s",
            seq![Prim::I32],
            seq![Prim::F32],
            Seq::<Prim>::empty(),
            false,
        ),
        0xb3 => entry(
            0xb3,
            "f32.convert_i32_u",
            seq![Prim::I32],
            seq![Prim::F32],
            Seq::<Prim>::empty(),
            false,
        ),
        0xb4 => entry(
            0xb4,
            "f32.convert_i64_s",
            seq![Prim::I64],
            seq![Prim::F32],
            Seq::<Prim>::empty(),
            false,
        ),
        0xb5 => entry(
            0xb5,
            "f32.convert_i64_u",
            seq![Prim::I64],
            seq![Prim::F32],
            Seq::<Prim>::empty(),
            false,
        ),
        0xb6 => entry(
            0xb6,
            "f32.demote_f64",
            seq![Prim::F64],
            seq![Prim::F32],
            Seq::<Prim>::empty(),
            false,
        ),
        0xb7 => entry(
            0xb7,
            "f64.convert_i32_s",
            seq![Prim::I32],
            seq![Prim::F64],
            Seq::<Prim>::empty(),
            false,
        ),
        0xb8 => entry(
            0xb8,
            "f64.convert_i32_u",
            seq![Prim::I32],
            seq![Prim::F64],
            Seq::<Prim>::empty(),
            false,
        ),
        0xb9 => entry(
            0xb9,
            "f64.convert_i64_s",
            seq![Prim::I64],
            seq![Prim::F64],
            Seq::<Prim>::empty(),
            false,
        ),
        0xba => entry(
            0xba,
            "f64.convert_i64_u",
            seq![Prim::I64],
            seq![Prim::F64],
            Seq::<Prim>::empty(),
            false,
        ),
        0xbb => entry(
            0xbb,
            "f64.promote_f32",
            seq![Prim::F32],
            seq![Prim::F64],
            Seq::<Prim>::empty(),
            false,
        ),
        0xbc => entry(
            0xbc,
            "i32.reinterpret_f32",
            seq![Prim::F32],
            seq![Prim::I32],
            Seq::<Prim>::empty(),
            false,
        ),
        0xbd => entry(
            0xbd,
            "i64.reinterpret_f64",
            seq![Prim::F64],
            seq![Prim::I64],
            Seq::<Prim>::empty(),
            false,
        ),
        0xbe => entry(
            0xbe,
            "f32.reinterpret_i32",
            seq![Prim::I32],
            seq![Prim::F32],
            Seq::<Prim>::empty(),
            false,
        ),
        0xbf => entry(
            0xbf,
            "f64.reinterpret_i64",
            seq![Prim::I64],
            seq![Prim::F64],
            Seq::<Prim>::empty(),
            false,
        ),
        _ => unassigned(op),
    }
}

/// The catalogue from `0xc0` to `0xff`: sign extension, and references.
pub open spec fn spec_instr_3(op: u8) -> InstrModel {
    match op {
        0xc0 => entry(
            0xc0,
            "i32.extend8_s",
            seq![Prim::I32],
            seq![Prim::I32],
            Seq::<Prim>::empty(),
            false,
        ),
        0xc1 => entry(
            0xc1,
            "i32.extend16_s",
            seq![Prim::I32],
            seq![Prim::I32],
            Seq::<Prim>::empty(),
            false,
        ),
        0xc2 => entry(
            0xc2,
            "i64.extend8_s",
            seq![Prim::I64],
            seq![Prim::I64],
            Seq::<Prim>::empty(),
            false,
        ),
        0xc3 => entry(
            0xc3,
            "i64.extend16_s",
            seq![Prim::I64],
            seq![Prim::I64],
            Seq::<Prim>::empty(),
            false,
        ),
        0xc4 => entry(
            0xc4,
            "i64.extend32_s",
            seq![Prim::I64],
            seq![Prim::I64],
            Seq::<Prim>::empty(),
            false,
        ),
        0xd0 => entry(
            0xd0,
            "ref.null",
            Seq::<Prim>::empty(),
            seq![Prim::Generic],
            seq![Prim::Void],
            false,
        ),
        0xd1 => entry(
            0xd1,
            "ref.is_null",
            seq![Prim::Generic],
            seq![Prim::I32],
            Seq::<Prim>::empty(),
            false,
        ),
        0xd2 => entry(
            0xd2,
            "ref.func",
            Seq::<Prim>::empty(),
            seq![Prim::Func],
            seq![Prim::Func],
            false,
        ),
        _ => unassigned(op),
    }
}

/// The catalogue: the descriptor of each opcode byte.
pub open spec fn spec_instr(op: u8) -> InstrModel {
    if op < 0x40 {
        spec_instr_0(op)
    } else if op < 0x80 {
        spec_instr_1(op)
    } else if op < 0xc0 {
        spec_instr_2(op)
    } else {
        spec_instr_3(op)
    }
}

fn no_prims() -> (r: &'static [Prim])
    ensures
        r@ == Seq::<Prim>::empty(),
{
    let r: &'static [Prim] = &[];
    assert(r@ =~= Seq::<Prim>::empty());
    r
}

fn prims_f32() -> (r: &'static [Prim])
    ensures
        r@ == seq![Prim::F32],
{
    let r: &'static [Prim] = &[Prim::F32];
    assert(r@ =~= seq![Prim::F32]);
    r
}

fn prims_f64() -> (r: &'static [Prim])
    ensures
        r@ == seq![Prim::F64],
{
    let r: &'static [Prim] = &[Prim::F64];
    assert(r@ =~= seq![Prim::F64]);
    r
}

fn prims_func() -> (r: &'static [Prim])
    ensures
        r@ == seq![Prim::Func],
{
    let r: &'static [Prim] = &[Prim::Func];
    assert(r@ =~= seq![Prim::Func]);
    r
}

fn prims_generic() -> (r: &'static [Prim])
    ensures
        r@ == seq![Prim::Generic],
{
    let r: &'static [Prim] = &[Prim::Generic];
    assert(r@ =~= seq![Prim::Generic]);
    r
}

fn prims_global() -> (r: &'static [Prim])
    ensures
        r@ == seq![Prim::Global],
{
    let r: &'static [Prim] = &[Prim::Global];
    assert(r@ =~= seq![Prim::Global]);
    r
}

fn prims_i32() -> (r: &'static [Prim])
    ensures
        r@ == seq![Prim::I32],
{
    let r: &'static [Prim] = &[Prim::I32];
    assert(r@ =~= seq![Prim::I32]);
    r
}

fn prims_i64() -> (r: &'static [Prim])
    ensures
        r@ == seq![Prim::I64],
{
    let r: &'static [Prim] = &[Prim::I64];
    assert(r@ =~= seq![Prim::I64]);
    r
}

fn prims_local() -> (r: &'static [Prim])
    ensures
        r@ == seq![Prim::Local],
{
    let r: &'static [Prim] = &[Prim::Local];
    assert(r@ =~= seq![Prim::Local]);
    r
}

fn prims_void() -> (r: &'static [Prim])
    ensures
        r@ == seq![Prim::Void],
{
    let r: &'static [Prim] = &[Prim::Void];
    assert(r@ =~= seq![Prim::Void]);
    r
}

fn prims_f32_f32() -> (r: &'static [Prim])
    ensures
        r@ == seq![Prim::F32, Prim::F32],
{
    let r: &'static [Prim] = &[Prim::F32, Prim::F32];
    assert(r@ =~= seq![Prim::F32, Prim::F32]);
    r
}

fn prims_f64_f64() -> (r: &'static [Prim])
    ensures
        r@ == seq![Prim::F64, Prim::F64],
{
    let r: &'static [Prim] = &[Prim::F64, Prim::F64];
    assert(r@ =~= seq![Prim::F64, Prim::F64]);
    r
}

fn prims_i32_f32() -> (r: &'static [Prim])
    ensures
        r@ == seq![Prim::I32, Prim::F32],
{
    let r: &'static [Prim] = &[Prim::I32, Prim::F32];
    assert(r@ =~= seq![Prim::I32, Prim::F32]);
    r
}

fn prims_i32_f64() -> (r: &'static [Prim])
    ensures
        r@ == seq![Prim::I32, Prim::F64],
{
    let r: &'static [Prim] = &[Prim::I32, Prim::F64];
    assert(r@ =~= seq![Prim::I32, Prim::F64]);
    r
}

fn prims_i32_i32() -> (r: &'static [Prim])
    ensures
        r@ == seq![Prim::I32, Prim::I32],
{
    let r: &'static [Prim] = &[Prim::I32, Prim::I32];
    assert(r@ =~= seq![Prim::I32, Prim::I32]);
    r
}

fn prims_i32_i64() -> (r: &'static [Prim])
    ensures
        r@ == seq![Prim::I32, Prim::I64],
{
    let r: &'static [Prim] = &[Prim::I32, Prim::I64];
    assert(r@ =~= seq![Prim::I32, Prim::I64]);
    r
}

fn prims_i64_i64() -> (r: &'static [Prim])
    ensures
        r@ == seq![Prim::I64, Prim::I64],
{
    let r: &'static [Prim] = &[Prim::I64, Prim::I64];
    assert(r@ =~= seq![Prim::I64, Prim::I64]);
    r
}

fn prims_generic_generic_i32() -> (r: &'static [Prim])
    ensures
        r@ == seq![Prim::Generic, Prim::Generic, Prim::I32],
{
    let r: &'static [Prim] = &[Prim::Generic, Prim::Generic, Prim::I32];
    assert(r@ =~= seq![Prim::Generic, Prim::Generic, Prim::I32]);
    r
}

fn blank(op: u8) -> (r: InstrInfo)
    ensures
        r@ == unassigned(op),
{
    InstrInfo {
        instr: op,
        name: "",
        in_types: no_prims(),
        out_types: no_prims(),
        constants: no_prims(),
        takes_align: false,
    }
}

fn instr_info_0(op: u8) -> (r: InstrInfo)
    ensures
        r@ == spec_instr_0(op),
{
    match op {
        0x00 => InstrInfo {
            instr: 0x00,
            name: "unreachable",
            in_types: no_prims(),
            out_types: no_prims(),
            constants: no_prims(),
            takes_align: false,
        },
        0x01 => InstrInfo {
            instr: 0x01,
            name: "nop",
            in_types: no_prims(),
            out_types: no_prims(),
            constants: no_prims(),
            takes_align: false,
        },
        0x02 => InstrInfo {
            instr: 0x02,
            name: "block",
            in_types: no_prims(),
            out_types: no_prims(),
            constants: prims_void(),
            takes_align: false,
        },
        0x03 => InstrInfo {
            instr: 0x03,
            name: "loop",
            in_types: no_prims(),
            out_types: no_prims(),
            constants: prims_void(),
            takes_align: false,
        },
        0x04 => InstrInfo {
            instr: 0x04,
            name: "if",
            in_types: prims_i32(),
            out_types: no_prims(),
            constants: prims_void(),
            takes_align: false,
        },
        0x05 => InstrInfo {
            instr: 0x05,
            name: "else",
            in_types: no_prims(),
            out_types: no_prims(),
            constants: no_prims(),
            takes_align: false,
        },
        0x0b => InstrInfo {
            instr: 0x0b,
            name: "end",
            in_types: no_prims(),
            out_types: no_prims(),
            constants: no_prims(),
            takes_align: false,
        },
        0x0c => InstrInfo {
            instr: 0x0c,
            name: "br",
            in_types: no_prims(),
            out_types: no_prims(),
            constants: prims_i32(),
            takes_align: false,
        },
        0x0d => InstrInfo {
            instr: 0x0d,
            name: "br_if",
            in_types: prims_i32(),
            out_types: no_prims(),
            constants: prims_i32(),
            takes_align: false,
        },
        0x0e => InstrInfo {
            instr: 0x0e,
            name: "br_table",
            in_types: prims_i32(),
            out_types: no_prims(),
            constants: no_prims(),
            takes_align: false,
        },
        0x0f => InstrInfo {
            instr: 0x0f,
            name: "return",
            in_types: no_prims(),
            out_types: no_prims(),
            constants: no_prims(),
            takes_align: false,
        },
        0x10 => InstrInfo {
            instr: 0x10,
            name: "call",
            in_types: no_prims(),
            out_types: no_prims(),
            constants: prims_func(),
            takes_align: false,
        },
        0x11 => InstrInfo {
            instr: 0x11,
            name: "call_indirect",
            in_types: prims_i32(),
            out_types: no_prims(),
            constants: prims_i32_i32(),
            takes_align: false,
        },
        0x1a => InstrInfo {
            instr: 0x1a,
            name: "drop",
            in_types: prims_generic(),
            out_types: no_prims(),
            constants: no_prims(),
            takes_align: false,
        },
        0x1b => InstrInfo {
            instr: 0x1b,
            name: "select",
            in_types: prims_generic_generic_i32(),
            out_types: prims_generic(),
            constants: no_prims(),
            takes_align: false,
        },
        0x20 => InstrInfo {
            instr: 0x20,
            name: "local.get",
            in_types: no_prims(),
            out_types: prims_generic(),
            constants: prims_local(),
            takes_align: false,
        },
        0x21 => InstrInfo {
            instr: 0x21,
            name: "local.set",
            in_types: prims_generic(),
            out_types: no_prims(),
            constants: prims_local(),
            takes_align: false,
        },
        0x22 => InstrInfo {
            instr: 0x22,
            name: "local.tee",
            in_types: prims_generic(),
            out_types: prims_generic(),
            constants: prims_local(),
            takes_align: false,
        },
        0x23 => InstrInfo {
            instr: 0x23,
            name: "global.get",
            in_types: no_prims(),
            out_types: prims_generic(),
            constants: prims_global(),
            takes_align: false,
        },
        0x24 => InstrInfo {
            instr: 0x24,
            name: "global.set",
            in_types: prims_generic(),
            out_types: no_prims(),
            constants: prims_global(),
            takes_align: false,
        },
        0x28 => InstrInfo {
            instr: 0x28,
            name: "i32.load",
            in_types: prims_i32(),
            out_types: prims_i32(),
            constants: prims_i32(),
            takes_align: true,
        },
        0x29 => InstrInfo {
            instr: 0x29,
            name: "i64.load",
            in_types: prims_i32(),
            out_types: prims_i64(),
            constants: prims_i32(),
            takes_align: true,
        },
        0x2a => InstrInfo {
            instr: 0x2a,
            name: "f32.load",
            in_types: prims_i32(),
            out_types: prims_f32(),
            constants: prims_i32(),
            takes_align: true,
        },
        0x2b => InstrInfo {
            instr: 0x2b,
            name: "f64.load",
            in_types: prims_i32(),
            out_types: prims_f64(),
            constants: prims_i32(),
            takes_align: true,
        },
        0x2c => InstrInfo {
            instr: 0x2c,
            name: "i32.load8_s",
            in_types: prims_i32(),
            out_types: prims_i32(),
            constants: prims_i32(),
            takes_align: true,
        },
        0x2d => InstrInfo {
            instr: 0x2d,
            name: "i32.load8_u",
            in_types: prims_i32(),
            out_types: prims_i32(),
            constants: prims_i32(),
            takes_align: true,
        },
        0x2e => InstrInfo {
            instr: 0x2e,
            name: "i32.load16_s",
            in_types: prims_i32(),
            out_types: prims_i32(),
            constants: prims_i32(),
            takes_align: true,
        },
        0x2f => InstrInfo {
            instr: 0x2f,
            name: "i32.load16_u",
            in_types: prims_i32(),
            out_types: prims_i32(),
            constants: prims_i32(),
            takes_align: true,
        },
        0x30 => InstrInfo {
            instr: 0x30,
            name: "i64.load8_s",
            in_types: prims_i32(),
            out_types: prims_i64(),
            constants: prims_i32(),
            takes_align: true,
        },
        0x31 => InstrInfo {
            instr: 0x31,
            name: "i64.load8_u",
            in_types: prims_i32(),
            out_types: prims_i64(),
            constants: prims_i32(),
            takes_align: true,
        },
        0x32 => InstrInfo {
            instr: 0x32,
            name: "i64.load16_s",
            in_types: prims_i32(),
            out_types: prims_i64(),
            constants: prims_i32(),
            takes_align: true,
        },
        0x33 => InstrInfo {
            instr: 0x33,
            name: "i64.load16_u",
            in_types: prims_i32(),
            out_types: prims_i64(),
            constants: prims_i32(),
            takes_align: true,
        },
        0x34 => InstrInfo {
            instr: 0x34,
            name: "i64.load32_s",
            in_types: prims_i32(),
            out_types: prims_i64(),
            constants: prims_i32(),
            takes_align: true,
        },
        0x35 => InstrInfo {
            instr: 0x35,
            name: "i64.load32_u",
            in_types: prims_i32(),
            out_types: prims_i64(),
            constants: prims_i32(),
            takes_align: true,
        },
        0x36 => InstrInfo {
            instr: 0x36,
            name: "i32.store",
            in_types: prims_i32_i32(),
            out_types: no_prims(),
            constants: prims_i32(),
            takes_align: true,
        },
        0x37 => InstrInfo {
            instr: 0x37,
            name: "i64.store",
            in_types: prims_i32_i64(),
            out_types: no_prims(),
            constants: prims_i32(),
            takes_align: true,
        },
        0x38 => InstrInfo {
            instr: 0x38,
            name: "f32.store",
            in_types: prims_i32_f32(),
            out_types: no_prims(),
            constants: prims_i32(),
            takes_align: true,
        },
        0x39 => InstrInfo {
            instr: 0x39,
            name: "f64.store",
            in_types: prims_i32_f64(),
            out_types: no_prims(),
            constants: prims_i32(),
            takes_align: true,
        },
        0x3a => InstrInfo {
            instr: 0x3a,
            name: "i32.store8",
            in_types: prims_i32_i32(),
            out_types: no_prims(),
            constants: prims_i32(),
            takes_align: true,
        },
        0x3b => InstrInfo {
            instr: 0x3b,
            name: "i32.store16",
            in_types: prims_i32_i32(),
            out_types: no_prims(),
            constants: prims_i32(),
            takes_align: true,
        },
        0x3c => InstrInfo {
            instr: 0x3c,
            name: "i64.store8",
            in_types: prims_i32_i64(),
            out_types: no_prims(),
            constants: prims_i32(),
            takes_align: true,
        },
        0x3d => InstrInfo {
            instr: 0x3d,
            name: "i64.store16",
            in_types: prims_i32_i64(),
            out_types: no_prims(),
            constants: prims_i32(),
            takes_align: true,
        },
        0x3e => InstrInfo {
            instr: 0x3e,
            name: "i64.store32",
            in_types: prims_i32_i64(),
            out_types: no_prims(),
            constants: prims_i32(),
            takes_align: true,
        },
        0x3f => InstrInfo {
            instr: 0x3f,
            name: "memory.size",
            in_types: no_prims(),
            out_types: prims_i32(),
            constants: prims_void(),
            takes_align: false,
        },
        _ => blank(op),
    }
}

fn instr_info_1(op: u8) -> (r: InstrInfo)
    ensures
        r@ == spec_instr_1(op),
{
    match op {
        0x40 => InstrInfo {
            instr: 0x40,
            name: "memory.grow",
            in_types: prims_i32(),
            out_types: prims_i32(),
            constants: prims_void(),
            takes_align: false,
        },
        0x41 => InstrInfo {
            instr: 0x41,
            name: "i32.const",
            in_types: no_prims(),
            out_types: prims_i32(),
            constants: prims_i32(),
            takes_align: false,
        },
        0x42 => InstrInfo {
            instr: 0x42,
            name: "i64.const",
            in_types: no_prims(),
            out_types: prims_i64(),
            constants: prims_i64(),
            takes_align: false,
        },
        0x43 => InstrInfo {
            instr: 0x43,
            name: "f32.const",
            in_types: no_prims(),
            out_types: prims_f32(),
            constants: prims_f32(),
            takes_align: false,
        },
        0x44 => InstrInfo {
            instr: 0x44,
            name: "f64.const",
            in_types: no_prims(),
            out_types: prims_f64(),
            constants: prims_f64(),
            takes_align: false,
        },
        0x45 => InstrInfo {
            instr: 0x45,
            name: "i32.eqz",
            in_types: prims_i32(),
            out_types: prims_i32(),
            constants: no_prims(),
            takes_align: false,
        },
        0x46 => InstrInfo {
            instr: 0x46,
            name: "i32.eq",
            in_types: prims_i32_i32(),
            out_types: prims_i32(),
            constants: no_prims(),
            takes_align: false,
        },
        0x47 => InstrInfo {
            instr: 0x47,
            name: "i32.ne",
            in_types: prims_i32_i32(),
            out_types: prims_i32(),
            constants: no_prims(),
            takes_align: false,
        },
        0x48 => InstrInfo {
            instr: 0x48,
            name: "i32.lt_s",
            in_types: prims_i32_i32(),
            out_types: prims_i32(),
            constants: no_prims(),
            takes_align: false,
        },
        0x49 => InstrInfo {
            instr: 0x49,
            name: "i32.lt_u",
            in_types: prims_i32_i32(),
            out_types: prims_i32(),
            constants: no_prims(),
            takes_align: false,
        },
        0x4a => InstrInfo {
            instr: 0x4a,
            name: "i32.gt_s",
            in_types: prims_i32_i32(),
            out_types: prims_i32(),
            constants: no_prims(),
            takes_align: false,
        },
        0x4b => InstrInfo {
            instr: 0x4b,
            name: "i32.gt_u",
            in_types: prims_i32_i32(),
            out_types: prims_i32(),
            constants: no_prims(),
            takes_align: false,
        },
        0x4c => InstrInfo {
            instr: 0x4c,
            name: "i32.le_s",
            in_types: prims_i32_i32(),
            out_types: prims_i32(),
            constants: no_prims(),
            takes_align: false,
        },
        0x4d => InstrInfo {
            instr: 0x4d,
            name: "i32.le_u",
            in_types: prims_i32_i32(),
            out_types: prims_i32(),
            constants: no_prims(),
            takes_align: false,
        },
        0x4e => InstrInfo {
            instr: 0x4e,
            name: "i32.ge_s",
            in_types: prims_i32_i32(),
            out_types: prims_i32(),
            constants: no_prims(),
            takes_align: false,
        },
        0x4f => InstrInfo {
            instr: 0x4f,
            name: "i32.ge_u",
            in_types: prims_i32_i32(),
            out_types: prims_i32(),
            constants: no_prims(),
            takes_align: false,
        },
        0x50 => InstrInfo {
            instr: 0x50,
            name: "i64.eqz",
            in_types: prims_i64(),
            out_types: prims_i32(),
            constants: no_prims(),
            takes_align: false,
        },
        0x51 => InstrInfo {
            instr: 0x51,
            name: "i64.eq",
            in_types: prims_i64_i64(),
            out_types: prims_i32(),
            constants: no_prims(),
            takes_align: false,
        },
        0x52 => InstrInfo {
            instr: 0x52,
            name: "i64.ne",
            in_types: prims_i64_i64(),
            out_types: prims_i32(),
            constants: no_prims(),
            takes_align: false,
        },
        0x53 => InstrInfo {
            instr: 0x53,
            name: "i64.lt_s",
            in_types: prims_i64_i64(),
            out_types: prims_i32(),
            constants: no_prims(),
            takes_align: false,
        },
        0x54 => InstrInfo {
            instr: 0x54,
            name: "i64.lt_u",
            in_types: prims_i64_i64(),
            out_types: prims_i32(),
            constants: no_prims(),
            takes_align: false,
        },
        0x55 => InstrInfo {
            instr: 0x55,
            name: "i64.gt_s",
            in_types: prims_i64_i64(),
            out_types: prims_i32(),
            constants: no_prims(),
            takes_align: false,
        },
        0x56 => InstrInfo {
            instr: 0x56,
            name: "i64.gt_u",
            in_types: prims_i64_i64(),
            out_types: prims_i32(),
            constants: no_prims(),
            takes_align: false,
        },
        0x57 => InstrInfo {
            instr: 0x57,
            name: "i64.le_s",
            in_types: prims_i64_i64(),
            out_types: prims_i32(),
            constants: no_prims(),
            takes_align: false,
        },
        0x58 => InstrInfo {
            instr: 0x58,
            name: "i64.le_u",
            in_types: prims_i64_i64(),
            out_types: prims_i32(),
            constants: no_prims(),
            takes_align: false,
        },
        0x59 => InstrInfo {
            instr: 0x59,
            name: "i64.ge_s",
            in_types: prims_i64_i64(),
            out_types: prims_i32(),
            constants: no_prims(),
            takes_align: false,
        },
        0x5a => InstrInfo {
            instr: 0x5a,
            name: "i64.ge_u",
            in_types: prims_i64_i64(),
            out_types: prims_i32(),
            constants: no_prims(),
            takes_align: false,
        },
        0x5b => InstrInfo {
            instr: 0x5b,
            name: "f32.eq",
            in_types: prims_f32_f32(),
            out_types: prims_i32(),
            constants: no_prims(),
            takes_align: false,
        },
        0x5c => InstrInfo {
            instr: 0x5c,
            name: "f32.ne",
            in_types: prims_f32_f32(),
            out_types: prims_i32(),
            constants: no_prims(),
            takes_align: false,
        },
        0x5d => InstrInfo {
            instr: 0x5d,
            name: "f32.lt",
            in_types: prims_f32_f32(),
            out_types: prims_i32(),
            constants: no_prims(),
            takes_align: false,
        },
        0x5e => InstrInfo {
            instr: 0x5e,
            name: "f32.gt",
            in_types: prims_f32_f32(),
            out_types: prims_i32(),
            constants: no_prims(),
            takes_align: false,
        },
        0x5f => InstrInfo {
            instr: 0x5f,
            name: "f32.le",
            in_types: prims_f32_f32(),
            out_types: prims_i32(),
            constants: no_prims(),
            takes_align: false,
        },
        0x60 => InstrInfo {
            instr: 0x60,
            name: "f32.ge",
            in_types: prims_f32_f32(),
            out_types: prims_i32(),
            constants: no_prims(),
            takes_align: false,
        },
        0x61 => InstrInfo {
            instr: 0x61,
            name: "f64.eq",
            in_types: prims_f64_f64(),
            out_types: prims_i32(),
            constants: no_prims(),
            takes_align: false,
        },
        0x62 => InstrInfo {
            instr: 0x62,
            name: "f64.ne",
            in_types: prims_f64_f64(),
            out_types: prims_i32(),
            constants: no_prims(),
            takes_align: false,
        },
        0x63 => InstrInfo {
            instr: 0x63,
            name: "f64.lt",
            in_types: prims_f64_f64(),
            out_types: prims_i32(),
            constants: no_prims(),
            takes_align: false,
        },
        0x64 => InstrInfo {
            instr: 0x64,
            name: "f64.gt",
            in_types: prims_f64_f64(),
            out_types: prims_i32(),
            constants: no_prims(),
            takes_align: false,
        },
        0x65 => InstrInfo {
            instr: 0x65,
            name: "f64.le",
            in_types: prims_f64_f64(),
            out_types: prims_i32(),
            constants: no_prims(),
            takes_align: false,
        },
        0x66 => InstrInfo {
            instr: 0x66,
            name: "f64.ge",
            in_types: prims_f64_f64(),
            out_types: prims_i32(),
            constants: no_prims(),
            takes_align: false,
        },
        0x67 => InstrInfo {
            instr: 0x67,
            name: "i32.clz",
            in_types: prims_i32(),
            out_types: prims_i32(),
            constants: no_prims(),
            takes_align: false,
        },
        0x68 => InstrInfo {
            instr: 0x68,
            name: "i32.ctz",
            in_types: prims_i32(),
            out_types: prims_i32(),
            constants: no_prims(),
            takes_align: false,
        },
        0x69 => InstrInfo {
            instr: 0x69,
            name: "i32.popcnt",
            in_types: prims_i32(),
            out_types: prims_i32(),
            constants: no_prims(),
            takes_align: false,
        },
        0x6a => InstrInfo {
            instr: 0x6a,
            name: "i32.add",
            in_types: prims_i32_i32(),
            out_types: prims_i32(),
            constants: no_prims(),
            takes_align: false,
        },
        0x6b => InstrInfo {
            instr: 0x6b,
            name: "i32.sub",
            in_types: prims_i32_i32(),
            out_types: prims_i32(),
            constants: no_prims(),
            takes_align: false,
        },
        0x6c => InstrInfo {
            instr: 0x6c,
            name: "i32.mul",
            in_types: prims_i32_i32(),
            out_types: prims_i32(),
            constants: no_prims(),
            takes_align: false,
        },
        0x6d => InstrInfo {
            instr: 0x6d,
            name: "i32.div_s",
            in_types: prims_i32_i32(),
            out_types: prims_i32(),
            constants: no_prims(),
            takes_align: false,
        },
        0x6e => InstrInfo {
            instr: 0x6e,
            name: "i32.div_u",
            in_types: prims_i32_i32(),
            out_types: prims_i32(),
            constants: no_prims(),
            takes_align: false,
        },
        0x6f => InstrInfo {
            instr: 0x6f,
            name: "i32.rem_s",
            in_types: prims_i32_i32(),
            out_types: prims_i32(),
            constants: no_prims(),
            takes_align: false,
        },
        0x70 => InstrInfo {
            instr: 0x70,
            name: "i32.rem_u",
            in_types: prims_i32_i32(),
            out_types: prims_i32(),
            constants: no_prims(),
            takes_align: false,
        },
        0x71 => InstrInfo {
            instr: 0x71,
            name: "i32.and",
            in_types: prims_i32_i32(),
            out_types: prims_i32(),
            constants: no_prims(),
            takes_align: false,
        },
        0x72 => InstrInfo {
            instr: 0x72,
            name: "i32.or",
            in_types: prims_i32_i32(),
            out_types: prims_i32(),
            constants: no_prims(),
            takes_align: false,
        },
        0x73 => InstrInfo {
            instr: 0x73,
            name: "i32.xor",
            in_types: prims_i32_i32(),
            out_types: prims_i32(),
            constants: no_prims(),
            takes_align: false,
        },
        0x74 => InstrInfo {
            instr: 0x74,
            name: "i32.shl",
            in_types: prims_i32_i32(),
            out_types: prims_i32(),
            constants: no_prims(),
            takes_align: false,
        },
        0x75 => InstrInfo {
            instr: 0x75,
            name: "i32.shr_s",
            in_types: prims_i32_i32(),
            out_types: prims_i32(),
            constants: no_prims(),
            takes_align: false,
        },
        0x76 => InstrInfo {
            instr: 0x76,
            name: "i32.shr_u",
            in_types: prims_i32_i32(),
            out_types: prims_i32(),
            constants: no_prims(),
            takes_align: false,
        },
        0x77 => InstrInfo {
            instr: 0x77,
            name: "i32.rotl",
            in_types: prims_i32_i32(),
            out_types: prims_i32(),
            constants: no_prims(),
            takes_align: false,
        },
        0x78 => InstrInfo {
            instr: 0x78,
            name: "i32.rotr",
            in_types: prims_i32_i32(),
            out_types: prims_i32(),
            constants: no_prims(),
            takes_align: false,
        },
        0x79 => InstrInfo {
            instr: 0x79,
            name: "i64.clz",
            in_types: prims_i64(),
            out_types: prims_i64(),
            constants: no_prims(),
            takes_align: false,
        },
        0x7a => InstrInfo {
            instr: 0x7a,
            name: "i64.ctz",
            in_types: prims_i64(),
            out_types: prims_i64(),
            constants: no_prims(),
            takes_align: false,
        },
        0x7b => InstrInfo {
            instr: 0x7b,
            name: "i64.popcnt",
            in_types: prims_i64(),
            out_types: prims_i64(),
            constants: no_prims(),
            takes_align: false,
        },
        0x7c => InstrInfo {
            instr: 0x7c,
            name: "i64.add",
            in_types: prims_i64_i64(),
            out_types: prims_i64(),
            constants: no_prims(),
            takes_align: false,
        },
        0x7d => InstrInfo {
            instr: 0x7d,
            name: "i64.sub",
            in_types: prims_i64_i64(),
            out_types: prims_i64(),
            constants: no_prims(),
            takes_align: false,
        },
        0x7e => InstrInfo {
            instr: 0x7e,
            name: "i64.mul",
            in_types: prims_i64_i64(),
            out_types: prims_i64(),
            constants: no_prims(),
            takes_align: false,
        },
        0x7f => InstrInfo {
            instr: 0x7f,
            name: "i64.div_s",
            in_types: prims_i64_i64(),
            out_types: prims_i64(),
            constants: no_prims(),
            takes_align: false,
        },
        _ => blank(op),
    }
}

fn instr_info_2(op: u8) -> (r: InstrInfo)
    ensures
        r@ == spec_instr_2(op),
{
    match op {
        0x80 => InstrInfo {
            instr: 0x80,
            name: "i64.div_u",
            in_types: prims_i64_i64(),
            out_types: prims_i64(),
            constants: no_prims(),
            takes_align: false,
        },
        0x81 => InstrInfo {
            instr: 0x81,
            name: "i64.rem_s",
            in_types: prims_i64_i64(),
            out_types: prims_i64(),
            constants: no_prims(),
            takes_align: false,
        },
        0x82 => InstrInfo {
            instr: 0x82,
            name: "i64.rem_u",
            in_types: prims_i64_i64(),
            out_types: prims_i64(),
            constants: no_prims(),
            takes_align: false,
        },
        0x83 => InstrInfo {
            instr: 0x83,
            name: "i64.and",
            in_types: prims_i64_i64(),
            out_types: prims_i64(),
            constants: no_prims(),
            takes_align: false,
        },
        0x84 => InstrInfo {
            instr: 0x84,
            name: "i64.or",
            in_types: prims_i64_i64(),
            out_types: prims_i64(),
            constants: no_prims(),
            takes_align: false,
        },
        0x85 => InstrInfo {
            instr: 0x85,
            name: "i64.xor",
            in_types: prims_i64_i64(),
            out_types: prims_i64(),
            constants: no_prims(),
            takes_align: false,
        },
        0x86 => InstrInfo {
            instr: 0x86,
            name: "i64.shl",
            in_types: prims_i64_i64(),
            out_types: prims_i64(),
            constants: no_prims(),
            takes_align: false,
        },
        0x87 => InstrInfo {
            instr: 0x87,
            name: "i64.shr_s",
            in_types: prims_i64_i64(),
            out_types: prims_i64(),
            constants: no_prims(),
            takes_align: false,
        },
        0x88 => InstrInfo {
            instr: 0x88,
            name: "i64.shr_u",
            in_types: prims_i64_i64(),
            out_types: prims_i64(),
            constants: no_prims(),
            takes_align: false,
        },
        0x89 => InstrInfo {
            instr: 0x89,
            name: "i64.rotl",
            in_types: prims_i64_i64(),
            out_types: prims_i64(),
            constants: no_prims(),
            takes_align: false,
        },
        0x8a => InstrInfo {
            instr: 0x8a,
            name: "i64.rotr",
            in_types: prims_i64_i64(),
            out_types: prims_i64(),
            constants: no_prims(),
            takes_align: false,
        },
        0x8b => InstrInfo {
            instr: 0x8b,
            name: "f32.abs",
            in_types: prims_f32(),
            out_types: prims_f32(),
            constants: no_prims(),
            takes_align: false,
        },
        0x8c => InstrInfo {
            instr: 0x8c,
            name: "f32.neg",
            in_types: prims_f32(),
            out_types: prims_f32(),
            constants: no_prims(),
            takes_align: false,
        },
        0x8d => InstrInfo {
            instr: 0x8d,
            name: "f32.ceil",
            in_types: prims_f32(),
            out_types: prims_f32(),
            constants: no_prims(),
            takes_align: false,
        },
        0x8e => InstrInfo {
            instr: 0x8e,
            name: "f32.floor",
            in_types: prims_f32(),
            out_types: prims_f32(),
            constants: no_prims(),
            takes_align: false,
        },
        0x8f => InstrInfo {
            instr: 0x8f,
            name: "f32.trunc",
            in_types: prims_f32(),
            out_types: prims_f32(),
            constants: no_prims(),
            takes_align: false,
        },
        0x90 => InstrInfo {
            instr: 0x90,
            name: "f32.nearest",
            in_types: prims_f32(),
            out_types: prims_f32(),
            constants: no_prims(),
            takes_align: false,
        },
        0x91 => InstrInfo {
            instr: 0x91,
            name: "f32.sqrt",
            in_types: prims_f32(),
            out_types: prims_f32(),
            constants: no_prims(),
            takes_align: false,
        },
        0x92 => InstrInfo {
            instr: 0x92,
            name: "f32.add",
            in_types: prims_f32_f32(),
            out_types: prims_f32(),
            constants: no_prims(),
            takes_align: false,
        },
        0x93 => InstrInfo {
            instr: 0x93,
            name: "f32.sub",
            in_types: prims_f32_f32(),
            out_types: prims_f32(),
            constants: no_prims(),
            takes_align: false,
        },
        0x94 => InstrInfo {
            instr: 0x94,
            name: "f32.mul",
            in_types: prims_f32_f32(),
            out_types: prims_f32(),
            constants: no_prims(),
            takes_align: false,
        },
        0x95 => InstrInfo {
            instr: 0x95,
            name: "f32.div",
            in_types: prims_f32_f32(),
            out_types: prims_f32(),
            constants: no_prims(),
            takes_align: false,
        },
        0x96 => InstrInfo {
            instr: 0x96,
            name: "f32.min",
            in_types: prims_f32_f32(),
            out_types: prims_f32(),
            constants: no_prims(),
            takes_align: false,
        },
        0x97 => InstrInfo {
            instr: 0x97,
            name: "f32.max",
            in_types: prims_f32_f32(),
            out_types: prims_f32(),
            constants: no_prims(),
            takes_align: false,
        },
        0x98 => InstrInfo {
            instr: 0x98,
            name: "f32.copysign",
            in_types: prims_f32_f32(),
            out_types: prims_f32(),
            constants: no_prims(),
            takes_align: false,
        },
        0x99 => InstrInfo {
            instr: 0x99,
            name: "f64.abs",
            in_types: prims_f64(),
            out_types: prims_f64(),
            constants: no_prims(),
            takes_align: false,
        },
        0x9a => InstrInfo {
            instr: 0x9a,
            name: "f64.neg",
            in_types: prims_f64(),
            out_types: prims_f64(),
            constants: no_prims(),
            takes_align: false,
        },
        0x9b => InstrInfo {
            instr: 0x9b,
            name: "f64.ceil",
            in_types: prims_f64(),
            out_types: prims_f64(),
            constants: no_prims(),
            takes_align: false,
        },
        0x9c => InstrInfo {
            instr: 0x9c,
            name: "f64.floor",
            in_types: prims_f64(),
            out_types: prims_f64(),
            constants: no_prims(),
            takes_align: false,
        },
        0x9d => InstrInfo {
            instr: 0x9d,
            name: "f64.trunc",
            in_types: prims_f64(),
            out_types: prims_f64(),
            constants: no_prims(),
            takes_align: false,
        },
        0x9e => InstrInfo {
            instr: 0x9e,
            name: "f64.nearest",
            in_types: prims_f64(),
            out_types: prims_f64(),
            constants: no_prims(),
            takes_align: false,
        },
        0x9f => InstrInfo {
            instr: 0x9f,
            name: "f64.sqrt",
            in_types: prims_f64(),
            out_types: prims_f64(),
            constants: no_prims(),
            takes_align: false,
        },
        0xa0 => InstrInfo {
            instr: 0xa0,
            name: "f64.add",
            in_types: prims_f64_f64(),
            out_types: prims_f64(),
            constants: no_prims(),
            takes_align: false,
        },
        0xa1 => InstrInfo {
            instr: 0xa1,
            name: "f64.sub",
            in_types: prims_f64_f64(),
            out_types: prims_f64(),
            constants: no_prims(),
            takes_align: false,
        },
        0xa2 => InstrInfo {
            instr: 0xa2,
            name: "f64.mul",
            in_types: prims_f64_f64(),
            out_types: prims_f64(),
            constants: no_prims(),
            takes_align: false,
        },
        0xa3 => InstrInfo {
            instr: 0xa3,
            name: "f64.div",
            in_types: prims_f64_f64(),
            out_types: prims_f64(),
            constants: no_prims(),
            takes_align: false,
        },
        0xa4 => InstrInfo {
            instr: 0xa4,
            name: "f64.min",
            in_types: prims_f64_f64(),
            out_types: prims_f64(),
            constants: no_prims(),
            takes_align: false,
        },
        0xa5 => InstrInfo {
            instr: 0xa5,
            name: "f64.max",
            in_types: prims_f64_f64(),
            out_types: prims_f64(),
            constants: no_prims(),
            takes_align: false,
        },
        0xa6 => InstrInfo {
            instr: 0xa6,
            name: "f64.copysign",
            in_types: prims_f64_f64(),
            out_types: prims_f64(),
            constants: no_prims(),
            takes_align: false,
        },
        0xa7 => InstrInfo {
            instr: 0xa7,
            name: "i32.wrap_i64",
            in_types: prims_i64(),
            out_types: prims_i32(),
            constants: no_prims(),
            takes_align: false,
        },
        0xa8 => InstrInfo {
            instr: 0xa8,
            name: "i32.trunc_f32_s",
            in_types: prims_f32(),
            out_types: prims_i32(),
            constants: no_prims(),
            takes_align: false,
        },
        0xa9 => InstrInfo {
            instr: 0xa9,
            name: "i32.trunc_f32_u",
            in_types: prims_f32(),
            out_types: prims_i32(),
            constants: no_prims(),
            takes_align: false,
        },
        0xaa => InstrInfo {
            instr: 0xaa,
            name: "i32.trunc_f64_s",
            in_types: prims_f64(),
            out_types: prims_i32(),
            constants: no_prims(),
            takes_align: false,
        },
        0xab => InstrInfo {
            instr: 0xab,
            name: "i32.trunc_f64_u",
            in_types: prims_f64(),
            out_types: prims_i32(),
            constants: no_prims(),
            takes_align: false,
        },
        0xac => InstrInfo {
            instr: 0xac,
            name: "i64.extend_i32_s",
            in_types: prims_i32(),
            out_types: prims_i64(),
            constants: no_prims(),
            takes_align: false,
        },
        0xad => InstrInfo {
            instr: 0xad,
            name: "i64.extend_i32_u",
            in_types: prims_i32(),
            out_types: prims_i64(),
            constants: no_prims(),
            takes_align: false,
        },
        0xae => InstrInfo {
            instr: 0xae,
            name: "i64.trunc_f32_s",
            in_types: prims_f32(),
            out_types: prims_i64(),
            constants: no_prims(),
            takes_align: false,
        },
        0xaf => InstrInfo {
            instr: 0xaf,
            name: "i64.trunc_f32_u",
            in_types: prims_f32(),
            out_types: prims_i64(),
            constants: no_prims(),
            takes_align: false,
        },
        0xb0 => InstrInfo {
            instr: 0xb0,
            name: "i64.trunc_f64_s",
            in_types: prims_f64(),
            out_types: prims_i64(),
            constants: no_prims(),
            takes_align: false,
        },
        0xb1 => InstrInfo {
            instr: 0xb1,
            name: "i64.trunc_f64_u",
            in_types: prims_f64(),
            out_types: prims_i64(),
            constants: no_prims(),
            takes_align: false,
        },
        0xb2 => InstrInfo {
            instr: 0xb2,
            name: "f32.convert_i32_s",
            in_types: prims_i32(),
            out_types: prims_f32(),
            constants: no_prims(),
            takes_align: false,
        },
        0xb3 => InstrInfo {
            instr: 0xb3,
            name: "f32.convert_i32_u",
            in_types: prims_i32(),
            out_types: prims_f32(),
            constants: no_prims(),
            takes_align: false,
        },
        0xb4 => InstrInfo {
            instr: 0xb4,
            name: "f32.convert_i64_s",
            in_types: prims_i64(),
            out_types: prims_f32(),
            constants: no_prims(),
            takes_align: false,
        },
        0xb5 => InstrInfo {
            instr: 0xb5,
            name: "f32.convert_i64_u",
            in_types: prims_i64(),
            out_types: prims_f32(),
            constants: no_prims(),
            takes_align: false,
        },
        0xb6 => InstrInfo {
            instr: 0xb6,
            name: "f32.demote_f64",
            in_types: prims_f64(),
            out_types: prims_f32(),
            constants: no_prims(),
            takes_align: false,
        },
        0xb7 => InstrInfo {
            instr: 0xb7,
            name: "f64.convert_i32_s",
            in_types: prims_i32(),
            out_types: prims_f64(),
            constants: no_prims(),
            takes_align: false,
        },
        0xb8 => InstrInfo {
            instr: 0xb8,
            name: "f64.convert_i32_u",
            in_types: prims_i32(),
            out_types: prims_f64(),
            constants: no_prims(),
            takes_align: false,
        },
        0xb9 => InstrInfo {
            instr: 0xb9,
            name: "f64.convert_i64_s",
            in_types: prims_i64(),
            out_types: prims_f64(),
            constants: no_prims(),
            takes_align: false,
        },
        0xba => InstrInfo {
            instr: 0xba,
            name: "f64.convert_i64_u",
            in_types: prims_i64(),
            out_types: prims_f64(),
            constants: no_prims(),
            takes_align: false,
        },
        0xbb => InstrInfo {
            instr: 0xbb,
            name: "f64.promote_f32",
            in_types: prims_f32(),
            out_types: prims_f64(),
            constants: no_prims(),
            takes_align: false,
        },
        0xbc => InstrInfo {
            instr: 0xbc,
            name: "i32.reinterpret_f32",
            in_types: prims_f32(),
            out_types: prims_i32(),
            constants: no_prims(),
            takes_align: false,
        },
        0xbd => InstrInfo {
            instr: 0xbd,
            name: "i64.reinterpret_f64",
            in_types: prims_f64(),
            out_types: prims_i64(),
            constants: no_prims(),
            takes_align: false,
        },
        0xbe => InstrInfo {
            instr: 0xbe,
            name: "f32.reinterpret_i32",
            in_types: prims_i32(),
            out_types: prims_f32(),
            constants: no_prims(),
            takes_align: false,
        },
        0xbf => InstrInfo {
            instr: 0xbf,
            name: "f64.reinterpret_i64",
            in_types: prims_i64(),
            out_types: prims_f64(),
            constants: no_prims(),
            takes_align: false,
        },
        _ => blank(op),
    }
}

fn instr_info_3(op: u8) -> (r: InstrInfo)
    ensures
        r@ == spec_instr_3(op),
{
    match op {
        0xc0 => InstrInfo {
            instr: 0xc0,
            name: "i32.extend8_s",
            in_types: prims_i32(),
            out_types: prims_i32(),
            constants: no_prims(),
            takes_align: false,
        },
        0xc1 => InstrInfo {
            instr: 0xc1,
            name: "i32.extend16_s",
            in_types: prims_i32(),
            out_types: prims_i32(),
            constants: no_prims(),
            takes_align: false,
        },
        0xc2 => InstrInfo {
            instr: 0xc2,
            name: "i64.extend8_s",
            in_types: prims_i64(),
            out_types: prims_i64(),
            constants: no_prims(),
            takes_align: false,
        },
        0xc3 => InstrInfo {
            instr: 0xc3,
            name: "i64.extend16_s",
            in_types: prims_i64(),
            out_types: prims_i64(),
            constants: no_prims(),
            takes_align: false,
        },
        0xc4 => InstrInfo {
            instr: 0xc4,
            name: "i64.extend32_s",
            in_types: prims_i64(),
            out_types: prims_i64(),
            constants: no_prims(),
            takes_align: false,
        },
        0xd0 => InstrInfo {
            instr: 0xd0,
            name: "ref.null",
            in_types: no_prims(),
            out_types: prims_generic(),
            constants: prims_void(),
            takes_align: false,
        },
        0xd1 => InstrInfo {
            instr: 0xd1,
            name: "ref.is_null",
            in_types: prims_generic(),
            out_types: prims_i32(),
            constants: no_prims(),
            takes_align: false,
        },
        0xd2 => InstrInfo {
            instr: 0xd2,
            name: "ref.func",
            in_types: no_prims(),
            out_types: prims_func(),
            constants: prims_func(),
            takes_align: false,
        },
        _ => blank(op),
    }
}

/// The descriptor of an opcode byte.
pub fn instr_info(op: u8) -> (r: InstrInfo)
    ensures
        r@ == spec_instr(op),
{
    if op < 0x40 {
        instr_info_0(op)
    } else if op < 0x80 {
        instr_info_1(op)
    } else if op < 0xc0 {
        instr_info_2(op)
    } else {
        instr_info_3(op)
    }
}

proof fn lemma_names_0(op: u8)
    ensures
        spec_instr_0(op).name.len() == 0 ==> spec_instr_0(op) == unassigned(op),
{
    reveal_strlit("");
    reveal_strlit("unreachable");
    reveal_strlit("nop");
    reveal_strlit("block");
    reveal_strlit("loop");
    reveal_strlit("if");
    reveal_strlit("else");
    reveal_strlit("end");
    reveal_strlit("br");
    reveal_strlit("br_if");
    reveal_strlit("br_table");
    reveal_strlit("return");
    reveal_strlit("call");
    reveal_strlit("call_indirect");
    reveal_strlit("drop");
    reveal_strlit("select");
    reveal_strlit("local.get");
    reveal_strlit("local.set");
    reveal_strlit("local.tee");
    reveal_strlit("global.get");
    reveal_strlit("global.set");
    reveal_strlit("i32.load");
    reveal_strlit("i64.load");
    reveal_strlit("f32.load");
    reveal_strlit("f64.load");
    reveal_strlit("i32.load8_s");
    reveal_strlit("i32.load8_u");
    reveal_strlit("i32.load16_s");
    reveal_strlit("i32.load16_u");
    reveal_strlit("i64.load8_s");
    reveal_strlit("i64.load8_u");
    reveal_strlit("i64.load16_s");
    reveal_strlit("i64.load16_u");
    reveal_strlit("i64.load32_s");
    reveal_strlit("i64.load32_u");
    reveal_strlit("i32.store");
    reveal_strlit("i64.store");
    reveal_strlit("f32.store");
    reveal_strlit("f64.store");
    reveal_strlit("i32.store8");
    reveal_strlit("i32.store16");
    reveal_strlit("i64.store8");
    reveal_strlit("i64.store16");
    reveal_strlit("i64.store32");
    reveal_strlit("memory.size");
}

proof fn lemma_names_1(op: u8)
    ensures
        spec_instr_1(op).name.len() == 0 ==> spec_instr_1(op) == unassigned(op),
{
    reveal_strlit("");
    reveal_strlit("memory.grow");
    reveal_strlit("i32.const");
    reveal_strlit("i64.const");
    reveal_strlit("f32.const");
    reveal_strlit("f64.const");
    reveal_strlit("i32.eqz");
    reveal_strlit("i32.eq");
    reveal_strlit("i32.ne");
    reveal_strlit("i32.lt_s");
    reveal_strlit("i32.lt_u");
    reveal_strlit("i32.gt_s");
    reveal_strlit("i32.gt_u");
    reveal_strlit("i32.le_s");
    reveal_strlit("i32.le_u");
    reveal_strlit("i32.ge_s");
    reveal_strlit("i32.ge_u");
    reveal_strlit("i64.eqz");
    reveal_strlit("i64.eq");
    reveal_strlit("i64.ne");
    reveal_strlit("i64.lt_s");
    reveal_strlit("i64.lt_u");
    reveal_strlit("i64.gt_s");
    reveal_strlit("i64.gt_u");
    reveal_strlit("i64.le_s");
    reveal_strlit("i64.le_u");
    reveal_strlit("i64.ge_s");
    reveal_strlit("i64.ge_u");
    reveal_strlit("f32.eq");
    reveal_strlit("f32.ne");
    reveal_strlit("f32.lt");
    reveal_strlit("f32.gt");
    reveal_strlit("f32.le");
    reveal_strlit("f32.ge");
    reveal_strlit("f64.eq");
    reveal_strlit("f64.ne");
    reveal_strlit("f64.lt");
    reveal_strlit("f64.gt");
    reveal_strlit("f64.le");
    reveal_strlit("f64.ge");
    reveal_strlit("i32.clz");
    reveal_strlit("i32.ctz");
    reveal_strlit("i32.popcnt");
    reveal_strlit("i32.add");
    reveal_strlit("i32.sub");
    reveal_strlit("i32.mul");
    reveal_strlit("i32.div_s");
    reveal_strlit("i32.div_u");
    reveal_strlit("i32.rem_s");
    reveal_strlit("i32.rem_u");
    reveal_strlit("i32.and");
    reveal_strlit("i32.or");
    reveal_strlit("i32.xor");
    reveal_strlit("i32.shl");
    reveal_strlit("i32.shr_s");
    reveal_strlit("i32.shr_u");
    reveal_strlit("i32.rotl");
    reveal_strlit("i32.rotr");
    reveal_strlit("i64.clz");
    reveal_strlit("i64.ctz");
    reveal_strlit("i64.popcnt");
    reveal_strlit("i64.add");
    reveal_strlit("i64.sub");
    reveal_strlit("i64.mul");
    reveal_strlit("i64.div_s");
}

proof fn lemma_names_2(op: u8)
    ensures
        spec_instr_2(op).name.len() == 0 ==> spec_instr_2(op) == unassigned(op),
{
    reveal_strlit("");
    reveal_strlit("i64.div_u");
    reveal_strlit("i64.rem_s");
    reveal_strlit("i64.rem_u");
    reveal_strlit("i64.and");
    reveal_strlit("i64.or");
    reveal_strlit("i64.xor");
    reveal_strlit("i64.shl");
    reveal_strlit("i64.shr_s");
    reveal_strlit("i64.shr_u");
    reveal_strlit("i64.rotl");
    reveal_strlit("i64.rotr");
    reveal_strlit("f32.abs");
    reveal_strlit("f32.neg");
    reveal_strlit("f32.ceil");
    reveal_strlit("f32.floor");
    reveal_strlit("f32.trunc");
    reveal_strlit("f32.nearest");
    reveal_strlit("f32.sqrt");
    reveal_strlit("f32.add");
    reveal_strlit("f32.sub");
    reveal_strlit("f32.mul");
    reveal_strlit("f32.div");
    reveal_strlit("f32.min");
    reveal_strlit("f32.max");
    reveal_strlit("f32.copysign");
    reveal_strlit("f64.abs");
    reveal_strlit("f64.neg");
    reveal_strlit("f64.ceil");
    reveal_strlit("f64.floor");
    reveal_strlit("f64.trunc");
    reveal_strlit("f64.nearest");
    reveal_strlit("f64.sqrt");
    reveal_strlit("f64.add");
    reveal_strlit("f64.sub");
    reveal_strlit("f64.mul");
    reveal_strlit("f64.div");
    reveal_strlit("f64.min");
    reveal_strlit("f64.max");
    reveal_strlit("f64.copysign");
    reveal_strlit("i32.wrap_i64");
    reveal_strlit("i32.trunc_f32_s");
    reveal_strlit("i32.trunc_f32_u");
    reveal_strlit("i32.trunc_f64_s");
    reveal_strlit("i32.trunc_f64_u");
    reveal_strlit("i64.extend_i32_s");
    reveal_strlit("i64.extend_i32_u");
    reveal_strlit("i64.trunc_f32_s");
    reveal_strlit("i64.trunc_f32_u");
    reveal_strlit("i64.trunc_f64_s");
    reveal_strlit("i64.trunc_f64_u");
    reveal_strlit("f32.convert_i32_s");
    reveal_strlit("f32.convert_i32_u");
    reveal_strlit("f32.convert_i64_s");
    reveal_strlit("f32.convert_i64_u");
    reveal_strlit("f32.demote_f64");
    reveal_strlit("f64.convert_i32_s");
    reveal_strlit("f64.convert_i32_u");
    reveal_strlit("f64.convert_i64_s");
    reveal_strlit("f64.convert_i64_u");
    reveal_strlit("f64.promote_f32");
    reveal_strlit("i32.reinterpret_f32");
    reveal_strlit("i64.reinterpret_f64");
    reveal_strlit("f32.reinterpret_i32");
    reveal_strlit("f64.reinterpret_i64");
}

proof fn lemma_names_3(op: u8)
    ensures
        spec_instr_3(op).name.len() == 0 ==> spec_instr_3(op) == unassigned(op),
{
    reveal_strlit("");
    reveal_strlit("i32.extend8_s");
    reveal_strlit("i32.extend16_s");
    reveal_strlit("i64.extend8_s");
    reveal_strlit("i64.extend16_s");
    reveal_strlit("i64.extend32_s");
    reveal_strlit("ref.null");
    reveal_strlit("ref.is_null");
    reveal_strlit("ref.func");
}

/// An opcode without a mnemonic has no stack signature, no immediates and
/// no alignment byte, and every entry carries its own opcode.
pub proof fn lemma_unassigned_is_empty(op: u8)
    ensures
        spec_instr(op).instr == op,
        spec_instr(op).name.len() == 0 ==> {
            &&& spec_instr(op).in_types.len() == 0
            &&& spec_instr(op).out_types.len() == 0
            &&& spec_instr(op).constants.len() == 0
            &&& !spec_instr(op).takes_align
        },
{
    lemma_names_0(op);
    lemma_names_1(op);
    lemma_names_2(op);
    lemma_names_3(op);
}

/// Exactly the memory loads and stores are followed by an alignment byte.
pub proof fn lemma_align_is_memory_access(op: u8)
    ensures
        spec_instr(op).takes_align <==> 0x28 <= op <= 0x3e,
{
}

/// Whether two strings hold the same characters.
pub fn same_text(a: &str, b: &str) -> (r: bool)
    ensures
        r == (a@ == b@),
{
    let x = a.as_bytes();
    let y = b.as_bytes();
    proof {
        vstd::utf8::encode_utf8_decode_utf8(a@);
        vstd::utf8::encode_utf8_decode_utf8(b@);
    }
    if x.len() != y.len() {
        return false;
    }
    let mut i: usize = 0;
    while i < x.len()
        invariant
            i <= x@.len(),
            x@.len() == y@.len(),
            x@ == vstd::utf8::encode_utf8(a@),
            y@ == vstd::utf8::encode_utf8(b@),
            x@.take(i as int) == y@.take(i as int),
        decreases x@.len() - i,
    {
        if x[i] != y[i] {
            return false;
        }
        assert(x@.take(i + 1) =~= x@.take(i as int).push(x@[i as int]));
        assert(y@.take(i + 1) =~= y@.take(i as int).push(y@[i as int]));
        i = i + 1;
    }
    assert(x@.take(i as int) =~= x@);
    assert(y@.take(i as int) =~= y@);
    true
}

/// The first descriptor, in opcode order, that carries the given mnemonic.
pub fn get_instr(name: &str) -> (r: Option<InstrInfo>)
    ensures
        match r {
            Some(i) => {
                &&& i@ == spec_instr(i.instr)
                &&& i@.name == name@
                &&& forall|op: u8| op < i.instr ==> spec_instr(op).name != name@
            },
            None => forall|op: u8| spec_instr(op).name != name@,
        },
{
    let mut op: u8 = 0;
    loop
        invariant
            forall|o: u8| o < op ==> spec_instr(o).name != name@,
        decreases 255 - op,
    {
        let info = instr_info(op);
        proof {
            lemma_unassigned_is_empty(op);
        }
        if same_text(info.name, name) {
            return Some(info);
        }
        if op == 255 {
            return None;
        }
        op = op + 1;
    }
}

/// The descriptor at an opcode, where the number is an opcode byte.
pub fn get_instr_from_op(opcode: u64) -> (r: Option<InstrInfo>)
    ensures
        match r {
            Some(i) => opcode < 256 && i@ == spec_instr(opcode as u8),
            None => opcode >= 256,
        },
{
    if opcode < 256 {
        Some(instr_info(opcode as u8))
    } else {
        None
    }
}

} // verus!
