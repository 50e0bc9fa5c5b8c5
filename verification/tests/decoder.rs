use wasm_decomp::file_reader::WasmDeserializeState;
use wasm_decomp::sections::wasm_deserialize;
use wasm_decomp::wasm_model::{ExprSeg, WasmError};

const HEADER: [u8; 8] = [0x00, 0x61, 0x73, 0x6D, 0x01, 0x00, 0x00, 0x00];

fn module(sections: &[u8]) -> Vec<u8> {
    let mut bytes = HEADER.to_vec();
    bytes.extend_from_slice(sections);
    bytes
}

#[test]
fn header_only_module_has_empty_sections() {
    let file = wasm_deserialize(&HEADER).unwrap();
    assert_eq!(file.wasm_header.magic_number, 0x6d73_6100);
    assert_eq!(file.wasm_header.version, 1);
    assert_eq!(file.type_section.num_types, 0);
    assert!(file.type_section.function_signatures.is_empty());
    assert_eq!(file.import_section_header.num_imports, 0);
    assert_eq!(file.function_section.num_functions, 0);
    assert_eq!(file.table_section.num_tables, 0);
    assert_eq!(file.memory_section.num_memories, 0);
    assert_eq!(file.global_section.num_globals, 0);
    assert_eq!(file.export_section.num_exports, 0);
    assert_eq!(file.elem_section.num_elems, 0);
    assert_eq!(file.code_section.num_functions, 0);
    assert_eq!(file.data_section.num_data_segs, 0);
    assert_eq!(file.data_count_section.datacount, 0);
}

#[test]
fn bad_magic_is_rejected() {
    let bytes = [0x00, 0x61, 0x73, 0x6E, 0x01, 0x00, 0x00, 0x00];
    assert_eq!(wasm_deserialize(&bytes).unwrap_err(), WasmError::InvalidMagic);
}

#[test]
fn short_header_is_premature_end() {
    assert_eq!(wasm_deserialize(&HEADER[..7]).unwrap_err(), WasmError::UnexpectedEof);
    assert_eq!(wasm_deserialize(&[]).unwrap_err(), WasmError::UnexpectedEof);
}

#[test]
fn one_function_type() {
    let bytes = module(&[0x01, 0x05, 0x01, 0x60, 0x01, 0x7F, 0x01, 0x7F]);
    let file = wasm_deserialize(&bytes).unwrap();
    assert_eq!(file.type_section.section_size, 5);
    assert_eq!(file.type_section.num_types, 1);
    assert_eq!(file.type_section.function_signatures.len(), 1);
    let sig = &file.type_section.function_signatures[0];
    assert_eq!(sig.func, 0x60);
    assert_eq!(sig.params.len(), 1);
    assert_eq!(sig.params[0]._type, 0x7F);
    assert_eq!(sig.results.len(), 1);
    assert_eq!(sig.results[0]._type, 0x7F);
}

#[test]
fn wrong_type_tag_is_rejected() {
    let bytes = module(&[0x01, 0x05, 0x01, 0x61, 0x01, 0x7F, 0x01, 0x7F]);
    assert_eq!(wasm_deserialize(&bytes).unwrap_err(), WasmError::InvalidTypeTag(0x61));
}

#[test]
fn one_global_i32_const_42() {
    let bytes = module(&[0x06, 0x06, 0x01, 0x7F, 0x00, 0x41, 0x2A, 0x0B]);
    let file = wasm_deserialize(&bytes).unwrap();
    assert_eq!(file.global_section.num_globals, 1);
    let global = &file.global_section.globals[0];
    assert_eq!(global.wasm_type._type, 0x7F);
    assert_eq!(global.mutability, 0);
    let segs = &global.expr.expr_string;
    assert_eq!(segs.len(), 2);
    match &segs[0] {
        ExprSeg::Instr(layout) => {
            assert_eq!(layout.len(), 2);
            assert!(matches!(&layout[0], ExprSeg::Operation(info) if info.name == "i32.const"));
            assert!(matches!(&layout[1], ExprSeg::Int(42)));
        }
        other => panic!("not an instruction: {:?}", other),
    }
    assert!(matches!(&segs[1], ExprSeg::Operation(info) if info.name == "end"));
}

#[test]
fn unreachable_body() {
    let bytes = [0x00, 0x0B];
    let mut reader = WasmDeserializeState::new(&bytes);
    let (expr, raw) = reader.read_expr().unwrap();
    assert_eq!(raw, vec![0x00, 0x0B]);
    assert_eq!(expr.expr_string.len(), 2);
    match &expr.expr_string[0] {
        ExprSeg::Instr(layout) => {
            assert_eq!(layout.len(), 1);
            assert!(
                matches!(&layout[0], ExprSeg::Operation(info) if info.name == "unreachable")
            );
        }
        other => panic!("not an instruction: {:?}", other),
    }
    assert!(matches!(&expr.expr_string[1], ExprSeg::Operation(info) if info.instr == 0x0B));
}

#[test]
fn br_table_with_three_targets() {
    let bytes = [0x0E, 0x03, 0x00, 0x01, 0x02, 0x03, 0x0B];
    let mut reader = WasmDeserializeState::new(&bytes);
    let (expr, _) = reader.read_expr().unwrap();
    assert_eq!(expr.expr_string.len(), 2);
    match &expr.expr_string[0] {
        ExprSeg::Instr(layout) => {
            assert_eq!(layout.len(), 2);
            assert!(matches!(&layout[0], ExprSeg::Operation(info) if info.name == "br_table"));
            match &layout[1] {
                ExprSeg::BrTable(table) => {
                    assert_eq!(table.break_depths, vec![0, 1, 2]);
                    assert_eq!(table.default, 3);
                }
                other => panic!("not a table: {:?}", other),
            }
        }
        other => panic!("not an instruction: {:?}", other),
    }
}

#[test]
fn uleb128_tenth_byte_with_high_bit() {
    let bytes = [0xFF; 12];
    let mut reader = WasmDeserializeState::new(&bytes);
    assert_eq!(reader.read_dynamic_uint().unwrap(), u64::MAX);
    // ten bytes were read, two are left
    assert_eq!(reader.read_vector(2).unwrap(), vec![0xFF, 0xFF]);
    assert_eq!(reader.read_u8().unwrap_err(), WasmError::UnexpectedEof);
}

#[test]
fn uleb128_values() {
    let bytes = [0xE5, 0x8E, 0x26, 0x00, 0x7F, 0x80, 0x00];
    let mut reader = WasmDeserializeState::new(&bytes);
    assert_eq!(reader.read_dynamic_uint().unwrap(), 624485);
    assert_eq!(reader.read_dynamic_uint().unwrap(), 0);
    assert_eq!(reader.read_dynamic_uint().unwrap(), 127);
    // an overlong zero is accepted
    assert_eq!(reader.read_dynamic_uint().unwrap(), 0);
    assert_eq!(reader.read_dynamic_uint().unwrap_err(), WasmError::UnexpectedEof);
}

#[test]
fn sleb128_values() {
    let bytes = [0xC0, 0xBB, 0x78, 0x7F, 0x3F, 0x40, 0x2A];
    let mut reader = WasmDeserializeState::new(&bytes);
    assert_eq!(reader.read_dynamic_int().unwrap(), -123456);
    assert_eq!(reader.read_dynamic_int().unwrap(), -1);
    assert_eq!(reader.read_dynamic_int().unwrap(), 63);
    assert_eq!(reader.read_dynamic_int().unwrap(), -64);
    assert_eq!(reader.read_dynamic_int().unwrap(), 42);
}

#[test]
fn sleb128_ten_bytes() {
    // i64::MIN: nine groups of zero, then the group 0x7F
    let min = [0x80, 0x80, 0x80, 0x80, 0x80, 0x80, 0x80, 0x80, 0x80, 0x7F];
    let mut reader = WasmDeserializeState::new(&min);
    assert_eq!(reader.read_dynamic_int().unwrap(), i64::MIN);
    let max = [0xFF, 0xFF, 0xFF, 0xFF, 0xFF, 0xFF, 0xFF, 0xFF, 0xFF, 0x00];
    let mut reader = WasmDeserializeState::new(&max);
    assert_eq!(reader.read_dynamic_int().unwrap(), i64::MAX);
    // nine bytes with the sign bit set in the last: sign-extended from bit 62
    let nine = [0x80, 0x80, 0x80, 0x80, 0x80, 0x80, 0x80, 0x80, 0x40];
    let mut reader = WasmDeserializeState::new(&nine);
    assert_eq!(reader.read_dynamic_int().unwrap(), -(1i64 << 62));
}
