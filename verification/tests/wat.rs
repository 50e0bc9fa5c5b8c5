use wasm_decomp::file_reader::WasmDeserializeState;
use wasm_decomp::instr_table::instr_info;
use wasm_decomp::sections::wasm_deserialize;
use wasm_decomp::wasm_model::{blank_emitter, EmitterState, ExprSeg, WasmExpr, WasmFile};
use wasm_decomp::wat_emitter::emit_wat;
use wasm_decomp::wat_expr::FloatTexts;

fn no_floats() -> FloatTexts {
    FloatTexts { singles: Vec::new(), doubles: Vec::new() }
}

fn decode(sections: &[u8]) -> WasmFile {
    let mut bytes = vec![0x00, 0x61, 0x73, 0x6D, 0x01, 0x00, 0x00, 0x00];
    bytes.extend_from_slice(sections);
    wasm_deserialize(&bytes).unwrap()
}

fn expression(bytes: &[u8]) -> WasmExpr {
    WasmDeserializeState::new(bytes).read_expr().unwrap().0
}

#[test]
fn constant_expression_as_text() {
    let expr = expression(&[0x41, 0x2A, 0x0B]);
    assert_eq!(expr.emit_expression_wat(&no_floats()), "(i32.const 42)");
    let block = expr.emit_block_wat(blank_emitter(), &no_floats());
    assert_eq!(block, (1, "i32.const 42 \n".to_string()));
}

#[test]
fn negative_constant_as_text() {
    let expr = expression(&[0x42, 0x7F, 0x0B]);
    assert_eq!(expr.emit_expression_wat(&no_floats()), "(i64.const -1)");
}

#[test]
fn two_instructions_as_text() {
    // local.get 1; global.set 2; end
    let expr = expression(&[0x20, 0x01, 0x24, 0x02, 0x0B]);
    let block = expr.emit_block_wat(blank_emitter(), &no_floats());
    assert_eq!(block, (2, "local.get $var1 \nglobal.set $global2 \n".to_string()));
    assert_eq!(expr.emit_expression_wat(&no_floats()), "(local.get $var1 \nglobal.set $global2)");
}

#[test]
fn empty_expression_as_text() {
    let expr = WasmExpr::from(Vec::new());
    assert_eq!(expr.emit_expression_wat(&no_floats()), "");
    assert_eq!(expr.emit_block_wat(blank_emitter(), &no_floats()), (0, "".to_string()));
    let end_alone = expression(&[0x0B]);
    assert_eq!(end_alone.emit_expression_wat(&no_floats()), "");
}

#[test]
fn flat_run_as_text() {
    let flat = WasmExpr::from(vec![
        ExprSeg::Operation(instr_info(0xD2)),
        ExprSeg::Func(3),
        ExprSeg::Operation(instr_info(0x0B)),
        ExprSeg::Operation(instr_info(0xD2)),
        ExprSeg::Func(4),
        ExprSeg::Operation(instr_info(0x0B)),
    ]);
    assert_eq!(flat.emit_expression_wat(&no_floats()), "(ref.func $func3) (ref.func $func4)");
    let from_three = EmitterState { start_segment: 3, label: 0 };
    assert_eq!(flat.emit_block_wat(from_three, &no_floats()), (5, "ref.func $func4".to_string()));
    // call_indirect asks for a blank behind itself and behind the segment that follows
    let call = WasmExpr::from(vec![
        ExprSeg::Operation(instr_info(0x11)),
        ExprSeg::Int(1),
        ExprSeg::Int(0),
        ExprSeg::Operation(instr_info(0x01)),
    ]);
    assert_eq!(
        call.emit_block_wat(blank_emitter(), &no_floats()),
        (3, "call_indirect 1 0nop".to_string())
    );
}

#[test]
fn nested_blocks_as_text() {
    // block; nop; loop; nop; end; end; end
    let expr = expression(&[0x02, 0x40, 0x01, 0x03, 0x40, 0x01, 0x0B, 0x0B, 0x0B]);
    let block = expr.emit_block_wat(blank_emitter(), &no_floats());
    assert_eq!(block.0, 1);
    assert_eq!(
        block.1,
        "block $label0\n  nop \n  loop $label1\n    nop\n  end $label1\nend $label0\n"
    );
    // through the segment itself the body keeps the white space at its end
    let seg_text = expr.expr_string[0].emit_wat("> ".to_string(), blank_emitter(), &no_floats());
    assert_eq!(
        seg_text,
        "> block $label0\n  nop \n  loop $label1\n    nop\n  end $label1\n  \nend $label0\n"
    );
}

#[test]
fn segments_as_text() {
    let floats = FloatTexts {
        singles: vec![(0x3FC0_0000, "1.5".to_string()), (0x3FC0_0000, "no".to_string())],
        doubles: vec![(0x4004_0000_0000_0000, "2.5".to_string())],
    };
    let text = |seg: ExprSeg| seg.emit_wat("".to_string(), blank_emitter(), &floats);
    assert_eq!(text(ExprSeg::Operation(instr_info(0x6A))), "i32.add");
    assert_eq!(text(ExprSeg::Int(i64::MIN)), "-9223372036854775808");
    assert_eq!(text(ExprSeg::Int(0)), "0");
    assert_eq!(text(ExprSeg::Float32(0x3FC0_0000)), "1.5");
    assert_eq!(text(ExprSeg::Float32(0)), "");
    assert_eq!(text(ExprSeg::Float64(0x4004_0000_0000_0000)), "2.5");
    assert_eq!(text(ExprSeg::Local(7)), "$var7");
    assert_eq!(text(ExprSeg::Global(8)), "$global8");
    assert_eq!(text(ExprSeg::Func(9)), "$func9");
    let instr = ExprSeg::Instr(vec![
        ExprSeg::Operation(instr_info(0x43)),
        ExprSeg::Float32(0x3FC0_0000),
    ]);
    assert_eq!(text(instr), "f32.const 1.5 \n");
}

#[test]
fn float_immediates_are_found() {
    // global f32 = 1.5; function body: f64.const 2.5; drop; block; f32.const 0; drop; end; end
    let mut sections = vec![0x06, 0x09, 0x01, 0x7D, 0x00, 0x43, 0x00, 0x00, 0xC0, 0x3F, 0x0B];
    sections.extend_from_slice(&[0x0A, 0x16, 0x01, 0x14, 0x00]);
    sections.extend_from_slice(&[0x44, 0x00, 0x00, 0x00, 0x00, 0x00, 0x00, 0x04, 0x40, 0x1A]);
    sections.extend_from_slice(&[0x02, 0x40, 0x43, 0x00, 0x00, 0x00, 0x00, 0x1A, 0x0B, 0x0B]);
    let file = decode(&sections);
    let (singles, doubles) = file.float_immediates();
    assert_eq!(singles, vec![0x3FC0_0000, 0]);
    assert_eq!(doubles, vec![0x4004_0000_0000_0000]);
    assert_eq!(file.expressions().len(), 2);
}

#[test]
fn module_as_text() {
    // type (param i32) (result i32); function 0 of type 0; global i32 = 42;
    // export "f" (func 0); code: one local i64, body block nop end end
    let mut sections = vec![0x01, 0x06, 0x01, 0x60, 0x01, 0x7F, 0x01, 0x7F];
    sections.extend_from_slice(&[0x03, 0x02, 0x01, 0x00]);
    sections.extend_from_slice(&[0x06, 0x06, 0x01, 0x7F, 0x00, 0x41, 0x2A, 0x0B]);
    sections.extend_from_slice(&[0x07, 0x05, 0x01, 0x01, 0x66, 0x00, 0x00]);
    sections.extend_from_slice(&[0x0A, 0x0A, 0x01, 0x08, 0x01, 0x02, 0x7E, 0x02, 0x40, 0x01, 0x0B, 0x0B]);
    let file = decode(&sections);
    let text = emit_wat(&file, &no_floats()).unwrap();
    let want = "(module\n".to_string()
        + "  (global $global0 (immut i32) ((i32.const 42)))\n"
        + "  (export \"f\" (func $func0))\n"
        + "  (func $func0(param $var0 i32) (result i32)\n"
        + "    (local $var1 i64) (local $var2 i64)\n"
        + "    block $label0\n"
        + "      nop\n"
        + "    end $label0\n"
        + "    \n"
        + "  )\n"
        + ")";
    assert_eq!(text, want);
}

#[test]
fn header_only_module_as_text() {
    assert_eq!(emit_wat(&decode(&[]), &no_floats()).unwrap(), "(module\n)");
}

#[test]
fn module_without_signature_has_no_text() {
    // a function of type 0, a body, and no type section
    let sections = [0x03, 0x02, 0x01, 0x00, 0x0A, 0x04, 0x01, 0x02, 0x00, 0x0B];
    assert!(emit_wat(&decode(&sections), &no_floats()).is_none());
    // an export of a function whose name is no UTF-8
    let sections = [0x07, 0x05, 0x01, 0x01, 0xFF, 0x00, 0x00];
    assert!(emit_wat(&decode(&sections), &no_floats()).is_none());
    // an export of another kind is left out, whatever its name
    let sections = [0x07, 0x05, 0x01, 0x01, 0xFF, 0x01, 0x00];
    assert_eq!(emit_wat(&decode(&sections), &no_floats()).unwrap(), "(module\n)");
}

#[test]
fn entities_as_text() {
    // import "env"."f" of kind func and type 0; a table; a memory; a passive element
    // segment with the functions 3 and 4; a data segment at offset 0 with the bytes "hi"
    let mut sections = vec![0x01, 0x05, 0x01, 0x60, 0x01, 0x7F, 0x00];
    sections.extend_from_slice(&[0x02, 0x09, 0x01, 0x03, 0x65, 0x6E, 0x76, 0x01, 0x66, 0x00, 0x00]);
    sections.extend_from_slice(&[0x04, 0x05, 0x01, 0x70, 0x01, 0x02, 0x08]);
    sections.extend_from_slice(&[0x05, 0x04, 0x01, 0x00, 0x01, 0x00]);
    sections.extend_from_slice(&[0x09, 0x06, 0x01, 0x01, 0x70, 0x02, 0x03, 0x04]);
    sections.extend_from_slice(&[0x0B, 0x08, 0x01, 0x00, 0x41, 0x00, 0x0B, 0x02, 0x68, 0x69]);
    let file = decode(&sections);
    let floats = no_floats();
    assert_eq!(
        emit_wat(&file, &floats).unwrap(),
        "(module\n".to_string()
            + "  (func $import0 (import \"env\" \"f\") (param i32))\n"
            + "  (table $table0 2 8 funcref)\n"
            + "  (memory $memory0 1 0)\n"
            + "  (elem $elem0 funcref (ref.func $func3) (ref.func $func4))\n"
            + "  (data (i32.const 0) hi)\n"
            + ")"
    );
    assert_eq!(file.table_to_wat(5, &file.table_section.tables[0]), "(table $table5 2 8 funcref)\n");
    assert_eq!(file.memory_to_wat(1, &file.memory_section.memories[0]), "(memory $memory1 1 0)\n");
    assert_eq!(
        file.elem_to_wat(0, &file.elem_section.elems[0], &floats),
        "(elem $elem0 funcref (ref.func $func3) (ref.func $func4))\n"
    );
    assert_eq!(
        file.data_to_wat(&file.data_section.data_segs[0], &floats),
        "(data (i32.const 0) hi)\n"
    );
    let sig = &file.type_section.function_signatures[0];
    assert_eq!(file.sig_to_import_wat(sig), "(param i32)");
    assert_eq!(file.sig_to_wat(sig), (1, "(param $var0 i32)".to_string()));
}

#[test]
fn function_global_and_export_as_text() {
    let mut sections = vec![0x01, 0x06, 0x01, 0x60, 0x01, 0x7F, 0x01, 0x7F];
    sections.extend_from_slice(&[0x03, 0x02, 0x01, 0x00]);
    sections.extend_from_slice(&[0x06, 0x06, 0x01, 0x7F, 0x01, 0x41, 0x2A, 0x0B]);
    sections.extend_from_slice(&[0x07, 0x09, 0x02, 0x01, 0x66, 0x00, 0x00, 0x01, 0x6D, 0x02, 0x03]);
    sections.extend_from_slice(&[0x0A, 0x05, 0x01, 0x03, 0x00, 0x01, 0x0B]);
    let file = decode(&sections);
    let floats = no_floats();
    assert_eq!(
        file.global_to_wat(7, &file.global_section.globals[0], &floats),
        "(global $global7 (mut i32) ((i32.const 42)))\n"
    );
    assert_eq!(
        file.export_to_wat(&file.export_section.exports[0]).unwrap(),
        "(export \"f\" (func $func0))\n"
    );
    assert_eq!(
        file.export_to_wat(&file.export_section.exports[1]).unwrap(),
        "(export \"m\" (memory $memory3))\n"
    );
    assert_eq!(
        file.func_to_wat(0, &file.code_section.functions[0], &floats).unwrap(),
        "(func $func0(param $var0 i32) (result i32)\n  nop \n  \n)\n"
    );
    // the function number 1 has no signature
    assert!(file.func_to_wat(1, &file.code_section.functions[0], &floats).is_none());
}
