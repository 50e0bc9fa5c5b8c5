use wasm_decomp::file_reader::WasmDeserializeState;
use wasm_decomp::instr_table::instr_info;
use wasm_decomp::usdm::{SpecialStackOp, Usdm, UsdmExpression, UsdmSegment};
use wasm_decomp::wasm_model::{
    calculate_body_len, BrTableConst, ExprError, ExprSeg, IdiomGrammar, Prim, WasmError, WasmExpr,
    WasmIdiom, WasmIdiomPattern,
};

fn shape(seg: &ExprSeg) -> String {
    match seg {
        ExprSeg::Operation(info) => info.name.to_string(),
        ExprSeg::ControlFlow(opener, body, end) => {
            format!("{}{{{}}}{}", opener.name, shapes(&body.expr_string), end.name)
        }
        ExprSeg::Int(v) => format!("i{}", v),
        ExprSeg::Float32(v) => format!("f{:#x}", v),
        ExprSeg::Float64(v) => format!("d{:#x}", v),
        ExprSeg::Local(v) => format!("l{}", v),
        ExprSeg::Global(v) => format!("g{}", v),
        ExprSeg::Func(v) => format!("fn{}", v),
        ExprSeg::BrTable(t) => format!("t{:?}/{}", t.break_depths, t.default),
        ExprSeg::Instr(v) => format!("[{}]", shapes(v)),
    }
}

fn shapes(segs: &[ExprSeg]) -> String {
    segs.iter().map(shape).collect::<Vec<String>>().join(" ")
}

fn read(bytes: &[u8]) -> Result<(String, Vec<u8>, usize), WasmError> {
    let mut reader = WasmDeserializeState::new(bytes);
    let (expr, raw) = reader.read_expr()?;
    let mut left = 0;
    while reader.read_u8().is_ok() {
        left += 1;
    }
    Ok((shapes(&expr.expr_string), raw, left))
}

#[test]
fn blocks_nest() {
    // block; loop; nop; end; i32.const 1; if; else; end; end; end; nop
    let bytes =
        [0x02, 0x40, 0x03, 0x40, 0x01, 0x0B, 0x41, 0x01, 0x04, 0x7F, 0x05, 0x0B, 0x0B, 0x0B, 0x01];
    let (text, raw, left) = read(&bytes).unwrap();
    assert_eq!(
        text,
        "block{loop{[nop] end}end [i32.const i1] if{[else] end}end end}end end"
    );
    assert_eq!(raw, bytes[..14].to_vec());
    assert_eq!(left, 1);
}

#[test]
fn immediates_follow_the_catalogue() {
    // i32.load align 2 offset 16; memory.size 0; f32.const 1.5; f64.const 2.5;
    // local.get 300; global.set 1; call 5; ref.func 6; call_indirect 2 0; br 1; end
    let bytes = [
        0x28, 0x02, 0x10, 0x3F, 0x00, 0x43, 0x00, 0x00, 0xC0, 0x3F, 0x44, 0x00, 0x00, 0x00, 0x00,
        0x00, 0x00, 0x04, 0x40, 0x20, 0xAC, 0x02, 0x24, 0x01, 0x10, 0x05, 0xD2, 0x06, 0x11, 0x02,
        0x00, 0x0C, 0x01, 0x0B,
    ];
    let (text, raw, left) = read(&bytes).unwrap();
    assert_eq!(
        text,
        "[i32.load i16] [memory.size] [f32.const f0x3fc00000] [f64.const d0x4004000000000000] \
         [local.get l300] [global.set g1] [call fn5] [ref.func fn6] [call_indirect i2 i0] \
         [br i1] end"
    );
    assert_eq!(raw, bytes.to_vec());
    assert_eq!(left, 0);
}

#[test]
fn overlong_numbers_decode_like_canonical_ones() {
    // i32.const 42 in three bytes and local.get 1 in two
    let overlong = [0x41, 0xAA, 0x80, 0x00, 0x20, 0x81, 0x00, 0x0B];
    let canonical = [0x41, 0x2A, 0x20, 0x01, 0x0B];
    let (long_text, long_raw, _) = read(&overlong).unwrap();
    let (text, raw, _) = read(&canonical).unwrap();
    assert_eq!(long_text, text);
    assert_eq!(text, "[i32.const i42] [local.get l1] end");
    // the bytes that were read are kept as they were
    assert_eq!(long_raw, overlong.to_vec());
    assert_eq!(raw, canonical.to_vec());
}

#[test]
fn indices_keep_their_low_32_bits() {
    // local.get 2^32 + 5
    let bytes = [0x20, 0x85, 0x80, 0x80, 0x80, 0x10, 0x0B];
    assert_eq!(read(&bytes).unwrap().0, "[local.get l5] end");
}

#[test]
fn expression_errors() {
    assert_eq!(read(&[]).unwrap_err(), WasmError::UnexpectedEof);
    assert_eq!(read(&[0x01]).unwrap_err(), WasmError::UnexpectedEof);
    assert_eq!(read(&[0x02, 0x40, 0x0B]).unwrap_err(), WasmError::UnexpectedEof);
    assert_eq!(read(&[0x41]).unwrap_err(), WasmError::UnexpectedEof);
    assert_eq!(read(&[0x43, 0x00, 0x00, 0x0B]).unwrap_err(), WasmError::UnexpectedEof);
    assert_eq!(read(&[0x06, 0x0B]).unwrap_err(), WasmError::UnknownOpcode(0x06));
    assert_eq!(read(&[0x01, 0xFF, 0x0B]).unwrap_err(), WasmError::UnknownOpcode(0xFF));
    assert_eq!(read(&[0x0E, 0x02, 0x00]).unwrap_err(), WasmError::UnexpectedEof);
}

#[test]
fn capture_keeps_what_is_read() {
    let bytes = [1, 2, 3, 4, 5, 6, 7, 8, 9, 10, 11, 12, 13, 14];
    let mut reader = WasmDeserializeState::new(&bytes);
    assert_eq!(reader.read_u8().unwrap(), 1);
    reader.start_raw_section();
    assert_eq!(reader.read_u32().unwrap(), 0x0504_0302);
    assert_eq!(reader.read_u8().unwrap(), 6);
    assert_eq!(reader.end_raw_section(), vec![2, 3, 4, 5, 6]);
    // capture is off now
    assert_eq!(reader.read_u64().unwrap(), 0x0E0D_0C0B_0A09_0807);
    assert_eq!(reader.end_raw_section(), Vec::<u8>::new());
    assert_eq!(reader.read_u8().unwrap_err(), WasmError::UnexpectedEof);
}

#[test]
fn fixed_width_reads_fail_at_the_end() {
    let bytes = [1, 2, 3];
    let mut reader = WasmDeserializeState::new(&bytes);
    assert_eq!(reader.read_u32().unwrap_err(), WasmError::UnexpectedEof);
    assert_eq!(reader.read_u64().unwrap_err(), WasmError::UnexpectedEof);
    assert_eq!(reader.read_vector(4).unwrap_err(), WasmError::UnexpectedEof);
    assert_eq!(reader.read_vector(u64::MAX).unwrap_err(), WasmError::UnexpectedEof);
    assert_eq!(reader.read_vector_dynamic(4).unwrap_err(), WasmError::UnexpectedEof);
    let mut reader = WasmDeserializeState::new(&bytes);
    assert_eq!(reader.read_vector_dynamic(3).unwrap(), vec![1, 2, 3]);
    let mut reader = WasmDeserializeState::new(&bytes);
    assert_eq!(reader.read_vector(3).unwrap(), vec![1, 2, 3]);
    assert_eq!(reader.read_vector(0).unwrap(), Vec::<u8>::new());
}

fn op(opcode: u8) -> ExprSeg {
    ExprSeg::Operation(instr_info(opcode))
}

fn build(flat: Vec<ExprSeg>) -> Result<String, ExprError> {
    WasmExpr::from(flat).parse_string().map(|expr| shapes(&expr.expr_string))
}

#[test]
fn flat_runs_are_built_into_expressions() {
    // i32.const 1; i32.shl
    assert_eq!(build(vec![op(0x41), ExprSeg::Int(1), op(0x74)]).unwrap(), "[i32.const i1] [i32.shl]");
    // block (with its dropped immediate); nop; end; nop; end; nop
    let flat = vec![op(0x02), ExprSeg::Int(0), op(0x01), op(0x0B), op(0x01), op(0x0B), op(0x01)];
    assert_eq!(build(flat).unwrap(), "block{[nop] end}end [nop] end");
    // br_table takes one segment, call_indirect two
    let table = ExprSeg::BrTable(BrTableConst { break_depths: vec![0, 1], default: 2 });
    let flat = vec![op(0x0E), table, op(0x11), ExprSeg::Int(3), ExprSeg::Int(0)];
    assert_eq!(build(flat).unwrap(), "[br_table t[0, 1]/2] [call_indirect i3 i0]");
    // a run that ends within a block gives the block in progress
    assert_eq!(build(vec![op(0x01), op(0x03), ExprSeg::Int(0), op(0x45)]).unwrap(), "[i32.eqz]");
    assert_eq!(build(Vec::new()).unwrap(), "");
}

#[test]
fn flat_runs_that_cannot_be_built() {
    assert_eq!(build(vec![ExprSeg::Int(1)]).unwrap_err(), ExprError::ExpectedInstruction);
    assert_eq!(build(vec![op(0x01), ExprSeg::Local(1)]).unwrap_err(), ExprError::ExpectedInstruction);
    assert_eq!(build(vec![op(0x41)]).unwrap_err(), ExprError::Misordered);
    assert_eq!(build(vec![op(0x11), ExprSeg::Int(1)]).unwrap_err(), ExprError::Misordered);
    assert_eq!(build(vec![op(0x0E)]).unwrap_err(), ExprError::Misordered);
}

#[test]
fn the_pattern_of_doubling() {
    let pattern = WasmIdiomPattern::double();
    assert_eq!(pattern.idiom, WasmIdiom::Double);
    assert_eq!(pattern.pattern.len(), 1);
    match &pattern.pattern[0] {
        IdiomGrammar::StrictExpr(expr) => {
            assert_eq!(shapes(&expr.expr_string), "[i32.const i1] [i32.shl]");
        }
        other => panic!("not an expression: {:?}", other),
    }
    let flat = WasmExpr::from(vec![op(0x41)]);
    assert!(WasmIdiomPattern::independent_expr(flat, WasmIdiom::Double).is_none());
}

#[test]
fn reckoned_lengths() {
    let table = ExprSeg::BrTable(BrTableConst { break_depths: vec![0, 200], default: 1 });
    let inner = WasmExpr::from(vec![op(0x01), ExprSeg::Int(128), op(0x0B)]);
    let flat = WasmExpr::from(vec![
        op(0x41),
        ExprSeg::Int(1),
        ExprSeg::Float32(0),
        ExprSeg::Float64(0),
        ExprSeg::Local(5),
        table,
        ExprSeg::ControlFlow(instr_info(0x02), Box::new(inner), instr_info(0x0B)),
        ExprSeg::Instr(vec![op(0x01)]),
    ]);
    // 1 + 2 + 4 + 8 + 0 + (2 + 1 + 3) + (1 + 3 + 1) + 0
    assert_eq!(calculate_body_len(&flat), Some(26));
    assert_eq!(calculate_body_len(&WasmExpr::from(Vec::new())), Some(0));
}

#[test]
fn stack_operations_of_instructions() {
    let add = instr_info(0x6A).get_stack_operation();
    assert_eq!(add.in_types, vec![Prim::I32, Prim::I32]);
    assert_eq!(add.out_types, vec![Prim::I32]);
    assert!(matches!(add.special_op, SpecialStackOp::Nothing));
    let constant = instr_info(0x42).get_stack_operation();
    assert!(matches!(constant.special_op, SpecialStackOp::CreateVar(Prim::I64)));
    assert!(matches!(
        instr_info(0xD2).get_stack_operation().special_op,
        SpecialStackOp::CreateVar(Prim::Func)
    ));
    let instr = ExprSeg::Instr(vec![op(0x43), ExprSeg::Float32(0)]);
    let through = instr.get_stack_operation();
    assert_eq!(through.out_types, vec![Prim::F32]);
    assert!(matches!(through.special_op, SpecialStackOp::CreateVar(Prim::F32)));
    let nothing = ExprSeg::Int(1).get_stack_operation();
    assert!(nothing.in_types.is_empty() && nothing.out_types.is_empty());
    assert!(ExprSeg::Instr(Vec::new()).get_stack_operation().out_types.is_empty());
}

#[test]
fn the_machine_follows_the_stack() {
    // i32.const 1; i32.const 2; i32.add; drop; drop
    let bytes = [0x41, 0x01, 0x41, 0x02, 0x6A, 0x1A, 0x1A, 0x0B];
    let expr = WasmDeserializeState::new(&bytes).read_expr().unwrap().0;
    let mut machine = Usdm::new(expr);
    assert!(machine.final_state.stack.is_empty());
    // the second drop finds the stack empty
    assert_eq!(machine.analyze_data(), 4);
    assert!(machine.final_state.stack.is_empty());

    let bytes = [0x41, 0x01, 0x41, 0x02, 0x6A, 0x0B];
    let expr = WasmDeserializeState::new(&bytes).read_expr().unwrap().0;
    let mut machine = Usdm::new(expr);
    assert_eq!(machine.analyze_data(), 4);
    assert_eq!(machine.final_state.stack.len(), 1);
    match &machine.final_state.stack[0] {
        UsdmExpression::UsdmExpr { operation, out_num, arguments } => {
            assert_eq!(shape(operation), "[i32.add]");
            assert_eq!(*out_num, 0);
            assert_eq!(arguments.len(), 2);
            assert!(matches!(arguments[0], UsdmExpression::UsdmVariable { _type: Prim::I32 }));
        }
        _ => panic!("not the value of an instruction"),
    }
}

fn opcodes(segs: &[ExprSeg]) -> Vec<u8> {
    let mut out = Vec::new();
    for seg in segs {
        match seg {
            ExprSeg::Operation(info) => out.push(info.instr),
            ExprSeg::ControlFlow(opener, body, _) => {
                out.push(opener.instr);
                out.extend(opcodes(&body.expr_string));
            }
            ExprSeg::Instr(layout) => {
                if let Some(ExprSeg::Operation(info)) = layout.first() {
                    out.push(info.instr);
                }
            }
            _ => {}
        }
    }
    out
}

#[test]
fn a_walk_meets_the_opcodes_of_the_bytes_in_order() {
    // block; i32.const 42 (overlong); loop; br_table [0 1] 0; end; local.get 3; end; end
    let bytes = [
        0x02, 0x40, 0x41, 0xAA, 0x80, 0x00, 0x03, 0x40, 0x0E, 0x02, 0x00, 0x01, 0x00, 0x0B, 0x20,
        0x03, 0x0B, 0x0B,
    ];
    let mut reader = WasmDeserializeState::new(&bytes);
    let (expr, _) = reader.read_expr().unwrap();
    assert_eq!(opcodes(&expr.expr_string), vec![0x02, 0x41, 0x03, 0x0E, 0x0B, 0x20, 0x0B, 0x0B]);
    // each block ends with its own closer, and the expression with the last
    match &expr.expr_string[0] {
        ExprSeg::ControlFlow(opener, body, end) => {
            assert_eq!(opener.instr, 0x02);
            assert_eq!(end.instr, 0x0B);
            assert!(matches!(body.expr_string.last(), Some(ExprSeg::Operation(i)) if i.instr == 0x0B));
        }
        _ => panic!("a block comes first"),
    }
    assert!(matches!(expr.expr_string.last(), Some(ExprSeg::Operation(i)) if i.instr == 0x0B));
}

#[test]
fn building_keeps_the_opcodes_of_a_run_that_closes_its_blocks() {
    // block (immediate dropped); i32.const 1; end; nop; end
    let flat = vec![op(0x02), ExprSeg::Int(0x40), op(0x41), ExprSeg::Int(1), op(0x0B), op(0x01), op(0x0B)];
    let built = WasmExpr::from(flat).parse_string().unwrap();
    assert_eq!(opcodes(&built.expr_string), vec![0x02, 0x41, 0x0B, 0x01, 0x0B]);
    // a run that ends inside a block yields the expression in progress alone
    let open = vec![op(0x01), op(0x02), ExprSeg::Int(0x40), op(0x01)];
    let built = WasmExpr::from(open).parse_string().unwrap();
    assert_eq!(opcodes(&built.expr_string), vec![0x01]);
}
